//! What a run says on the terminal.

use vstd::prelude::*;

use crate::clock;
use crate::config::SampleDuration;
use crate::human;
use crate::path;
use crate::path::UnixPath;
use crate::report::{Sample, SummaryStats};
use crate::text;

verus! {

/// The opening lines of a run, with the budget of a sample as text.
pub open spec fn banner_lines(
    device: Seq<char>,
    device_size: nat,
    samples: nat,
    duration: Seq<char>,
) -> Seq<char> {
    "benchmarking "@ + device + ": size "@ + human::human_bytes_text(device_size) + ", "@
        + text::decimal(samples) + " samples, up to "@ + duration + " per sample\n"@
        + "read-only direct I/O benchmark; no writes will be issued and the Linux page cache is bypassed\n"@
}

/// The opening lines of a run, with the budget of a sample as text.
pub fn banner_with_duration(
    device: &UnixPath,
    device_size: u64,
    samples: usize,
    duration: &str,
) -> (lines: String)
    ensures
        lines@ == banner_lines(
            path::lossy_text(device@),
            device_size as nat,
            samples as nat,
            duration@,
        ),
{
    let mut lines = "benchmarking ".to_owned();
    lines.append(device.display().as_str());
    lines.append(": size ");
    lines.append(human::human_bytes(device_size).as_str());
    lines.append(", ");
    lines.append(text::decimal_text(samples as u64).as_str());
    lines.append(" samples, up to ");
    lines.append(duration);
    lines.append(" per sample\n");
    lines.append(
        "read-only direct I/O benchmark; no writes will be issued and the Linux page cache is bypassed\n",
    );
    lines
}

/// The opening lines of a run.
pub fn banner(
    device: &UnixPath,
    device_size: u64,
    samples: usize,
    duration: SampleDuration,
) -> (lines: String)
    ensures
        lines@ == banner_lines(
            path::lossy_text(device@),
            device_size as nat,
            samples as nat,
            clock::human_duration(duration.millis),
        ),
{
    banner_with_duration(device, device_size, samples, duration.text().as_str())
}

/// The line that reports a finished sample.
pub open spec fn sample_line_text(sample: Sample) -> Seq<char> {
    text::right_aligned(text::decimal((sample.index + 1) as nat), 5) + " "@ + text::right_aligned(
        sample.position@,
        6,
    ) + "% offset "@ + text::right_aligned(human::human_bytes_text(sample.offset as nat), 13)
        + " read "@ + text::right_aligned(human::human_bytes_text(sample.bytes_read as nat), 13)
        + " in "@ + text::right_aligned(sample.elapsed_secs@, 7) + "s "@ + text::right_aligned(
        sample.mib_per_sec@,
        9,
    ) + " MiB/s\n"@
}

/// The line that reports a finished sample.
pub fn sample_line(sample: &Sample) -> (line: String)
    requires
        sample.index < usize::MAX,
    ensures
        line@ == sample_line_text(*sample),
{
    let mut line = text::pad_left(text::decimal_text(sample.index as u64 + 1).as_str(), 5);
    line.append(" ");
    line.append(text::pad_left(sample.position.as_str(), 6).as_str());
    line.append("% offset ");
    line.append(text::pad_left(human::human_bytes(sample.offset).as_str(), 13).as_str());
    line.append(" read ");
    line.append(text::pad_left(human::human_bytes(sample.bytes_read).as_str(), 13).as_str());
    line.append(" in ");
    line.append(text::pad_left(sample.elapsed_secs.as_str(), 7).as_str());
    line.append("s ");
    line.append(text::pad_left(sample.mib_per_sec.as_str(), 9).as_str());
    line.append(" MiB/s\n");
    line
}

/// The closing lines of a run.
pub open spec fn summary_lines(
    summary: SummaryStats,
    svg_output: Seq<char>,
    markdown_output: Seq<char>,
) -> Seq<char> {
    "summary: min "@ + summary.min_rate@ + " MiB/s, avg "@ + summary.average_rate@
        + " MiB/s, max "@ + summary.max_rate@ + " MiB/s\n"@ + "wrote "@ + svg_output + "\n"@
        + "wrote "@ + markdown_output + "\n"@
}

/// The closing lines of a run.
pub fn summary_text(
    summary: &SummaryStats,
    svg_output: &UnixPath,
    markdown_output: &UnixPath,
) -> (lines: String)
    ensures
        lines@ == summary_lines(
            *summary,
            path::lossy_text(svg_output@),
            path::lossy_text(markdown_output@),
        ),
{
    let mut lines = "summary: min ".to_owned();
    lines.append(summary.min_rate.as_str());
    lines.append(" MiB/s, avg ");
    lines.append(summary.average_rate.as_str());
    lines.append(" MiB/s, max ");
    lines.append(summary.max_rate.as_str());
    lines.append(" MiB/s\n");
    lines.append("wrote ");
    lines.append(svg_output.display().as_str());
    lines.append("\n");
    lines.append("wrote ");
    lines.append(markdown_output.display().as_str());
    lines.append("\n");
    lines
}

/// Whether `text` ends `field`, with nothing but spaces before it.
pub open spec fn fills(field: Seq<char>, text: Seq<char>) -> bool {
    let blank = field.len() - text.len();
    &&& blank >= 0
    &&& field.skip(blank) == text
    &&& forall|i: int| 0 <= i < blank ==> #[trigger] field[i] == ' '
}

/// The greater of two numbers.
pub open spec fn widest(a: nat, b: nat) -> nat {
    if a < b {
        b
    } else {
        a
    }
}

proof fn lemma_field(text: Seq<char>, width: nat)
    ensures
        text::right_aligned(text, width).len() == widest(text.len(), width),
        fills(text::right_aligned(text, width), text),
{
    text::law_right_aligned_texts_end_their_field(text, width);
}

proof fn lemma_cut(line: Seq<char>, before: Seq<char>, part: Seq<char>)
    requires
        (before + part).is_prefix_of(line),
    ensures
        before.is_prefix_of(line),
        before.len() + part.len() <= line.len(),
        line.subrange(before.len() as int, (before.len() + part.len()) as int) == part,
{
    let whole = before + part;
    assert(line.subrange(0, whole.len() as int) =~= whole);
    assert forall|i: int| 0 <= i < whole.len() implies line[i] == whole[i] by {
        assert(line.subrange(0, whole.len() as int)[i] == line[i]);
    }
    assert(before =~= line.subrange(0, before.len() as int));
    assert(line.subrange(before.len() as int, whole.len() as int) =~= part);
}

/// The line of a sample shows, in right-aligned columns and in this order, the number of the
/// sample counted from 1, its position in percent, its own offset, what it read, its time and its
/// rate. A text that is wider than its column moves what follows, and nothing is cut off.
#[verifier::rlimit(50)]
pub proof fn law_sample_lines_show_the_sample(sample: Sample)
    ensures
        ({
            let line = sample_line_text(sample);
            let number = text::decimal((sample.index + 1) as nat);
            let offset = human::human_bytes_text(sample.offset as nat);
            let read = human::human_bytes_text(sample.bytes_read as nat);
            let a = widest(number.len(), 5) as int;
            let b = a + 1 + widest(sample.position@.len(), 6);
            let c = b + 9 + widest(offset.len(), 13);
            let d = c + 6 + widest(read.len(), 13);
            let e = d + 4 + widest(sample.elapsed_secs@.len(), 7);
            let f = e + 2 + widest(sample.mib_per_sec@.len(), 9);
            &&& line.len() == f + 7
            &&& fills(line.subrange(0, a), number)
            &&& line[a] == ' '
            &&& fills(line.subrange(a + 1, b), sample.position@)
            &&& line.subrange(b, b + 9) == "% offset "@
            &&& fills(line.subrange(b + 9, c), offset)
            &&& line.subrange(c, c + 6) == " read "@
            &&& fills(line.subrange(c + 6, d), read)
            &&& line.subrange(d, d + 4) == " in "@
            &&& fills(line.subrange(d + 4, e), sample.elapsed_secs@)
            &&& line.subrange(e, e + 2) == "s "@
            &&& fills(line.subrange(e + 2, f), sample.mib_per_sec@)
            &&& line.subrange(f, f + 7) == " MiB/s\n"@
        }),
{
    reveal_strlit(" ");
    reveal_strlit("% offset ");
    reveal_strlit(" read ");
    reveal_strlit(" in ");
    reveal_strlit("s ");
    reveal_strlit(" MiB/s\n");
    let number = text::decimal((sample.index + 1) as nat);
    let offset = human::human_bytes_text(sample.offset as nat);
    let read = human::human_bytes_text(sample.bytes_read as nat);
    lemma_field(number, 5);
    lemma_field(sample.position@, 6);
    lemma_field(offset, 13);
    lemma_field(read, 13);
    lemma_field(sample.elapsed_secs@, 7);
    lemma_field(sample.mib_per_sec@, 9);
    let p0 = text::right_aligned(number, 5);
    let p2 = text::right_aligned(sample.position@, 6);
    let p4 = text::right_aligned(offset, 13);
    let p6 = text::right_aligned(read, 13);
    let p8 = text::right_aligned(sample.elapsed_secs@, 7);
    let p10 = text::right_aligned(sample.mib_per_sec@, 9);
    let t0 = p0;
    let t1 = t0 + " "@;
    let t2 = t1 + p2;
    let t3 = t2 + "% offset "@;
    let t4 = t3 + p4;
    let t5 = t4 + " read "@;
    let t6 = t5 + p6;
    let t7 = t6 + " in "@;
    let t8 = t7 + p8;
    let t9 = t8 + "s "@;
    let t10 = t9 + p10;
    let line = t10 + " MiB/s\n"@;
    assert(line == sample_line_text(sample));
    assert(line.subrange(0, line.len() as int) =~= line);
    lemma_cut(line, t10, " MiB/s\n"@);
    lemma_cut(line, t9, p10);
    lemma_cut(line, t8, "s "@);
    lemma_cut(line, t7, p8);
    lemma_cut(line, t6, " in "@);
    lemma_cut(line, t5, p6);
    lemma_cut(line, t4, " read "@);
    lemma_cut(line, t3, p4);
    lemma_cut(line, t2, "% offset "@);
    lemma_cut(line, t1, p2);
    lemma_cut(line, t0, " "@);
    let none = Seq::<char>::empty();
    assert(none + t0 =~= t0);
    lemma_cut(line, none, t0);
    let a = t0.len() as int;
    assert(line[a] == line.subrange(a, a + 1)[0]);
}

/// The opening lines name the device, its size, the number of samples and their budget, each in
/// its place, and end in the promise that nothing is written.
pub proof fn law_banner_names_what_is_run(
    device: Seq<char>,
    device_size: nat,
    samples: nat,
    duration: Seq<char>,
)
    ensures
        ({
            let lines = banner_lines(device, device_size, samples, duration);
            let size = human::human_bytes_text(device_size);
            let count = text::decimal(samples);
            let a = 13 + device.len() as int;
            let b = a + 7 + size.len();
            let c = b + 2 + count.len();
            let d = c + 16 + duration.len();
            &&& lines.len() == d + 106
            &&& lines.subrange(0, 13) == "benchmarking "@
            &&& lines.subrange(13, a) == device
            &&& lines.subrange(a, a + 7) == ": size "@
            &&& lines.subrange(a + 7, b) == size
            &&& lines.subrange(b, b + 2) == ", "@
            &&& lines.subrange(b + 2, c) == count
            &&& lines.subrange(c, c + 16) == " samples, up to "@
            &&& lines.subrange(c + 16, d) == duration
            &&& lines.subrange(d, d + 12) == " per sample\n"@
            &&& lines.subrange(d + 12, d + 106)
                == "read-only direct I/O benchmark; no writes will be issued and the Linux page cache is bypassed\n"@
        }),
{
    reveal_strlit("benchmarking ");
    reveal_strlit(": size ");
    reveal_strlit(", ");
    reveal_strlit(" samples, up to ");
    reveal_strlit(" per sample\n");
    reveal_strlit(
        "read-only direct I/O benchmark; no writes will be issued and the Linux page cache is bypassed\n",
    );
    let promise =
        "read-only direct I/O benchmark; no writes will be issued and the Linux page cache is bypassed\n"@;
    let t0 = "benchmarking "@;
    let t1 = t0 + device;
    let t2 = t1 + ": size "@;
    let t3 = t2 + human::human_bytes_text(device_size);
    let t4 = t3 + ", "@;
    let t5 = t4 + text::decimal(samples);
    let t6 = t5 + " samples, up to "@;
    let t7 = t6 + duration;
    let t8 = t7 + " per sample\n"@;
    let lines = t8 + promise;
    assert(lines == banner_lines(device, device_size, samples, duration));
    assert(lines.subrange(0, lines.len() as int) =~= lines);
    lemma_cut(lines, t8, promise);
    lemma_cut(lines, t7, " per sample\n"@);
    lemma_cut(lines, t6, duration);
    lemma_cut(lines, t5, " samples, up to "@);
    lemma_cut(lines, t4, text::decimal(samples));
    lemma_cut(lines, t3, ", "@);
    lemma_cut(lines, t2, human::human_bytes_text(device_size));
    lemma_cut(lines, t1, ": size "@);
    lemma_cut(lines, t0, device);
    let none = Seq::<char>::empty();
    assert(none + t0 =~= t0);
    lemma_cut(lines, none, t0);
}

/// The closing lines show the least, the average and the greatest rate, and then the graph and the
/// report that were written, each in its place.
pub proof fn law_summary_names_rates_and_files(
    summary: SummaryStats,
    svg_output: Seq<char>,
    markdown_output: Seq<char>,
)
    ensures
        ({
            let lines = summary_lines(summary, svg_output, markdown_output);
            let a = 13 + summary.min_rate@.len() as int;
            let b = a + 12 + summary.average_rate@.len();
            let c = b + 12 + summary.max_rate@.len();
            let d = c + 13 + svg_output.len();
            let e = d + 7 + markdown_output.len();
            &&& lines.len() == e + 1
            &&& lines.subrange(0, 13) == "summary: min "@
            &&& lines.subrange(13, a) == summary.min_rate@
            &&& lines.subrange(a, a + 12) == " MiB/s, avg "@
            &&& lines.subrange(a + 12, b) == summary.average_rate@
            &&& lines.subrange(b, b + 12) == " MiB/s, max "@
            &&& lines.subrange(b + 12, c) == summary.max_rate@
            &&& lines.subrange(c, c + 7) == " MiB/s\n"@
            &&& lines.subrange(c + 7, c + 13) == "wrote "@
            &&& lines.subrange(c + 13, d) == svg_output
            &&& lines.subrange(d, d + 1) == "\n"@
            &&& lines.subrange(d + 1, d + 7) == "wrote "@
            &&& lines.subrange(d + 7, e) == markdown_output
            &&& lines.subrange(e, e + 1) == "\n"@
        }),
{
    reveal_strlit("summary: min ");
    reveal_strlit(" MiB/s, avg ");
    reveal_strlit(" MiB/s, max ");
    reveal_strlit(" MiB/s\n");
    reveal_strlit("wrote ");
    reveal_strlit("\n");
    let t0 = "summary: min "@;
    let t1 = t0 + summary.min_rate@;
    let t2 = t1 + " MiB/s, avg "@;
    let t3 = t2 + summary.average_rate@;
    let t4 = t3 + " MiB/s, max "@;
    let t5 = t4 + summary.max_rate@;
    let t6 = t5 + " MiB/s\n"@;
    let t7 = t6 + "wrote "@;
    let t8 = t7 + svg_output;
    let t9 = t8 + "\n"@;
    let t10 = t9 + "wrote "@;
    let t11 = t10 + markdown_output;
    let lines = t11 + "\n"@;
    assert(lines == summary_lines(summary, svg_output, markdown_output));
    assert(lines.subrange(0, lines.len() as int) =~= lines);
    lemma_cut(lines, t11, "\n"@);
    lemma_cut(lines, t10, markdown_output);
    lemma_cut(lines, t9, "wrote "@);
    lemma_cut(lines, t8, "\n"@);
    lemma_cut(lines, t7, svg_output);
    lemma_cut(lines, t6, "wrote "@);
    lemma_cut(lines, t5, " MiB/s\n"@);
    lemma_cut(lines, t4, summary.max_rate@);
    lemma_cut(lines, t3, " MiB/s, max "@);
    lemma_cut(lines, t2, summary.average_rate@);
    lemma_cut(lines, t1, " MiB/s, avg "@);
    lemma_cut(lines, t0, summary.min_rate@);
    let none = Seq::<char>::empty();
    assert(none + t0 =~= t0);
    lemma_cut(lines, none, t0);
}

} // verus!
