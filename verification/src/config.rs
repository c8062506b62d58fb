//! What the caller asked for.

use vstd::prelude::*;
use vstd::utf8;

use crate::device;
use crate::device::DeviceMetadata;
use crate::path::UnixPath;

verus! {

/// The time budget of one sample, in whole milliseconds.
#[derive(Clone, Copy, Debug, PartialEq, Eq)]
pub struct SampleDuration {
    pub millis: u64,
}

impl SampleDuration {
    /// The budget in nanoseconds.
    pub open spec fn nanos(self) -> nat {
        self.millis as nat * 1_000_000
    }
}

/// The settings of a run.
pub struct Config {
    /// The device to sample.
    pub device: UnixPath,
    /// How many sample points to spread over the device.
    pub bins: usize,
    /// The time budget of each sample in milliseconds.
    pub sample_ms: u64,
    /// Where the graph goes, if the caller says so.
    pub output: Option<UnixPath>,
}

impl Config {
    /// What holds of all settings: there is something to sample, and time to do it.
    pub open spec fn wf(self) -> bool {
        self.bins > 0 && self.sample_ms > 0
    }

    /// The settings of a run.
    pub fn new(
        device: UnixPath,
        bins: usize,
        sample_ms: u64,
        output: Option<UnixPath>,
    ) -> (config: Self)
        requires
            bins > 0,
            sample_ms > 0,
        ensures
            config.wf(),
            config == (Config { device, bins, sample_ms, output }),
    {
        Config { device, bins, sample_ms, output }
    }

    /// The time budget of each sample.
    pub fn sample_duration(&self) -> (duration: SampleDuration)
        ensures
            duration.millis == self.sample_ms,
            duration.nanos() == self.sample_ms * 1_000_000,
    {
        SampleDuration { millis: self.sample_ms }
    }

    /// The path of the graph of a device with this label.
    pub open spec fn graph_path(self, label: Seq<char>) -> Seq<u8> {
        match self.output {
            Some(output) => output@,
            None => utf8::encode_utf8(device::default_svg_name(label)),
        }
    }

    /// Where the graph goes: where the caller says, or else to a file named after the device.
    pub fn svg_output(&self, metadata: &DeviceMetadata) -> (path: UnixPath)
        ensures
            path@ == self.graph_path(metadata.label@),
            path@ == (match self.output {
                Some(output) => output@,
                None => utf8::encode_utf8(device::default_svg_name(metadata.label@)),
            }),
    {
        match &self.output {
            Some(output) => output.clone(),
            None => device::default_output_path(metadata),
        }
    }
}

/// Where the caller names the graph, that is its path, whatever the device is called. Otherwise
/// two devices share a path exactly if their labels are the same once made safe for a file name.
pub proof fn law_graphs_go_where_the_caller_says(config: Config, label: Seq<char>, other: Seq<char>)
    ensures
        config.output matches Some(output) ==> config.graph_path(label) == output@,
        config.output is None ==> (config.graph_path(label) == config.graph_path(other)
            <==> device::safe_name(label) == device::safe_name(other)),
        config.output is None ==> config.graph_path(label) == utf8::encode_utf8(
            "block-benchie-"@ + device::safe_name(label) + ".svg"@,
        ),
{
    let a = device::default_svg_name(label);
    let b = device::default_svg_name(other);
    device::law_graphs_are_named_after_the_label(label);
    device::law_graphs_are_named_after_the_label(other);
    device::lemma_graph_names_are_ascii(label);
    device::lemma_graph_names_are_ascii(other);
    utf8::is_ascii_chars_encode_utf8(a);
    utf8::is_ascii_chars_encode_utf8(b);
    if utf8::encode_utf8(a) == utf8::encode_utf8(b) {
        assert forall|i: int| 0 <= i < a.len() implies a[i] == b[i] by {
            assert(utf8::encode_utf8(a)[i] == utf8::encode_utf8(b)[i]);
        }
        assert(a =~= b);
    }
}

} // verus!
