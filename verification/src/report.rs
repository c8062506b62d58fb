//! The measurements that reports show. Rates, times and positions are decimal texts: they are
//! measured in floating point, and shown with a fixed number of decimals everywhere.

use vstd::prelude::*;

use crate::clock::RunMetadata;
use crate::config::SampleDuration;
use crate::device::DeviceMetadata;
use crate::path::UnixPath;

verus! {

/// A finished sample.
#[derive(Debug)]
pub struct Sample {
    /// The number of the sample, counted from 0.
    pub index: usize,
    /// The offset of the sample point.
    pub offset: u64,
    /// How many bytes were read.
    pub bytes_read: u64,
    /// The position of the sample point in percent of the device, with two decimals.
    pub position: String,
    /// How long the sample took in seconds, with three decimals.
    pub elapsed_secs: String,
    /// The transfer rate in MiB per second, with two decimals.
    pub mib_per_sec: String,
}

/// Whether a text stays in the table cell it is put into as it is: it holds no line feed, no bar
/// and no backslash.
pub open spec fn stays_in_cell(text: Seq<char>) -> bool {
    forall|i: int|
        0 <= i < text.len() ==> #[trigger] text[i] != '\n' && text[i] != '|' && text[i] != '\\'
}

impl Sample {
    /// Whether the measurements of the sample stay in their table cells, as numbers do.
    pub open spec fn is_plain(self) -> bool {
        &&& stays_in_cell(self.position@)
        &&& stays_in_cell(self.elapsed_secs@)
        &&& stays_in_cell(self.mib_per_sec@)
    }
}

/// Whether there is one sample for each of the offsets, with its number, in order.
pub open spec fn covers(samples: Seq<Sample>, offsets: Seq<u64>) -> bool {
    &&& samples.len() == offsets.len()
    &&& forall|i: int|
        0 <= i < samples.len() ==> (#[trigger] samples[i]).index == i && samples[i].offset
            == offsets[i]
}

/// The transfer rates of a run in MiB per second, with two decimals.
#[derive(Debug)]
pub struct SummaryStats {
    pub min_rate: String,
    pub average_rate: String,
    pub max_rate: String,
}

/// All that is known at the end of a run.
pub struct Report {
    /// The device under test.
    pub device: DeviceMetadata,
    /// When the run took place.
    pub run: RunMetadata,
    /// Where the graph goes.
    pub svg_output: UnixPath,
    /// Where the Markdown report goes.
    pub markdown_output: UnixPath,
    /// The size of the device.
    pub device_size: u64,
    /// The time budget of each sample.
    pub duration: SampleDuration,
    /// The samples in the order they were taken.
    pub samples: Vec<Sample>,
    /// The transfer rates of the run.
    pub summary: SummaryStats,
}

impl Report {
    /// Whether every sample has a number that can be counted from 1.
    pub open spec fn is_numbered(self) -> bool {
        forall|i: int|
            0 <= i < self.samples@.len() ==> (#[trigger] self.samples@[i]).index < usize::MAX
    }

    /// Whether the measurements of all samples stay in their table cells.
    pub open spec fn is_plain(self) -> bool {
        forall|i: int| 0 <= i < self.samples@.len() ==> (#[trigger] self.samples@[i]).is_plain()
    }
}

/// The samples of a run that is through can all be counted from 1.
pub proof fn law_covering_reports_are_numbered(report: Report, offsets: Seq<u64>)
    requires
        covers(report.samples@, offsets),
    ensures
        report.is_numbered(),
{
    assert(report.samples@.len() == report.samples.len());
}

} // verus!
