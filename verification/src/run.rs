//! The decisions of a run before the first read, and the order of its samples.

use vstd::prelude::*;

use crate::error::RunError;
use crate::path;
use crate::path::UnixPath;
use crate::report;
use crate::report::Sample;
use crate::sampling;
use crate::sampling::ALIGNMENT;

verus! {

/// What the file metadata of a device say of its size.
#[derive(Clone, Copy, Debug, PartialEq, Eq)]
pub enum SizeHint {
    /// The size is known.
    Known(u64),
    /// The metadata say nothing, and the device has to be asked.
    AskDevice,
}

/// What the length in the file metadata says of the size of a device.
pub open spec fn size_hint(len: Option<u64>) -> SizeHint {
    match len {
        Some(size) => if size > 0 {
            SizeHint::Known(size)
        } else {
            SizeHint::AskDevice
        },
        None => SizeHint::AskDevice,
    }
}

/// The metadata tell the size of a device exactly if they give a length above 0, and then it is
/// that length.
pub proof fn law_only_a_positive_length_is_a_size(len: Option<u64>, size: u64)
    ensures
        size_hint(len) == SizeHint::Known(size) <==> len == Some(size) && size != 0,
        size_hint(len) == SizeHint::AskDevice <==> len is None || len == Some(0u64),
{
}

/// What the length in the file metadata says of the size of a device, where there are metadata.
/// Block devices report a length of 0, which says nothing.
pub fn size_from_metadata(len: Option<u64>) -> (hint: SizeHint)
    ensures
        hint == size_hint(len),
        hint == (match len {
            Some(size) => if size > 0 {
                SizeHint::Known(size)
            } else {
                SizeHint::AskDevice
            },
            None => SizeHint::AskDevice,
        }),
{
    match len {
        Some(size) => if size > 0 {
            SizeHint::Known(size)
        } else {
            SizeHint::AskDevice
        },
        None => SizeHint::AskDevice,
    }
}

/// The size that the device gave when it was asked.
pub open spec fn answered_size(return_code: i32, size: u64) -> Option<u64> {
    if return_code == 0 {
        Some(size)
    } else {
        None
    }
}

/// An answer counts exactly if the call returned 0, and then as it was given, be it 0.
pub proof fn law_only_successful_calls_answer(return_code: i32, size: u64)
    ensures
        return_code != 0 ==> answered_size(return_code, size) is None,
        answered_size(0, size) == Some(size),
{
}

/// The size that the device gave when it was asked: none if the call did not return 0.
pub fn size_from_ioctl(return_code: i32, size: u64) -> (answer: Option<u64>)
    ensures
        answer == answered_size(return_code, size),
        answer == (if return_code == 0 {
            Some(size)
        } else {
            None
        }),
{
    if return_code == 0 {
        Some(size)
    } else {
        None
    }
}

/// The sample points of a run on a device of this size, or why it cannot be sampled: an empty
/// device, or one smaller than a single aligned read.
pub fn plan_run(device: &UnixPath, device_size: u64, bins: usize) -> (plan: Result<
    Vec<u64>,
    RunError,
>)
    ensures
        match plan {
            Ok(offsets) => {
                &&& device_size >= ALIGNMENT
                &&& offsets@ == sampling::planned_offsets(device_size as nat, bins as nat)
            },
            Err(RunError::NoReadableBytes { device: name }) => {
                &&& device_size == 0
                &&& name@ == path::lossy_text(device@)
            },
            Err(RunError::TooSmall { device: name }) => {
                &&& 0 < device_size < ALIGNMENT
                &&& name@ == path::lossy_text(device@)
            },
            Err(_) => false,
        },
        plan is Ok <==> device_size >= 4096,
        plan matches Err(error) ==> (error is NoReadableBytes <==> device_size == 0),
        plan matches Ok(offsets) ==> bins > 1 ==> {
            let runway: int = if device_size > 0x4000_1000 {
                0x4000_0000
            } else {
                4096
            };
            &&& offsets@.len() == bins
            &&& offsets@[0] == 0
            &&& offsets@[bins - 1] + runway <= device_size < offsets@[bins - 1] + runway + 4096
        },
{
    if device_size == 0 {
        return Err(RunError::NoReadableBytes { device: device.display() });
    }
    if device_size < ALIGNMENT {
        return Err(RunError::TooSmall { device: device.display() });
    }
    Ok(sampling::sample_offsets(device_size, bins))
}

/// What one sample measured.
#[derive(Debug)]
pub struct Reading {
    /// How many bytes were read.
    pub bytes_read: u64,
    /// The position of the sample point in percent of the device, with two decimals.
    pub position: String,
    /// How long the sample took in seconds, with three decimals.
    pub elapsed_secs: String,
    /// The transfer rate in MiB per second, with two decimals.
    pub mib_per_sec: String,
}

/// The progress of a run: the offsets of all its sample points, and the samples so far.
#[derive(Debug)]
pub struct Progress {
    pub offsets: Vec<u64>,
    pub samples: Vec<Sample>,
}

impl Progress {
    /// What holds at every point of a run: the samples so far are those of the first sample
    /// points, in order.
    pub open spec fn wf(self) -> bool {
        &&& self.samples@.len() <= self.offsets@.len()
        &&& report::covers(self.samples@, self.offsets@.take(self.samples@.len() as int))
    }

    /// The number and the offset of the sample that is due; none once all are taken.
    pub open spec fn due(self) -> Option<(nat, u64)> {
        if self.samples@.len() < self.offsets@.len() {
            Some((self.samples@.len(), self.offsets@[self.samples@.len() as int]))
        } else {
            None
        }
    }

    /// A run over these sample points, before its first sample.
    pub fn new(offsets: Vec<u64>) -> (progress: Self)
        ensures
            progress.wf(),
            progress.offsets == offsets,
            progress.samples@.len() == 0,
    {
        Progress { offsets, samples: Vec::new() }
    }

    /// The number and the offset of the sample that is due; none once all are taken.
    pub fn next(&self) -> (due: Option<(usize, u64)>)
        ensures
            due is Some <==> self.due() is Some,
            due matches Some((index, offset)) ==> self.due() == Some((index as nat, offset)),
    {
        if self.samples.len() < self.offsets.len() {
            Some((self.samples.len(), self.offsets[self.samples.len()]))
        } else {
            None
        }
    }

    /// Takes note of what the sample that was due has measured.
    pub fn record(&mut self, reading: Reading)
        requires
            old(self).wf(),
            old(self).due() is Some,
        ensures
            final(self).wf(),
            final(self).offsets == old(self).offsets,
            final(self).samples@ == old(self).samples@.push(
                (Sample {
                    index: old(self).samples.len(),
                    offset: old(self).offsets@[old(self).samples@.len() as int],
                    bytes_read: reading.bytes_read,
                    position: reading.position,
                    elapsed_secs: reading.elapsed_secs,
                    mib_per_sec: reading.mib_per_sec,
                }),
            ),
            final(self).samples@.drop_last() == old(self).samples@,
            final(self).samples@.last().bytes_read == reading.bytes_read,
            final(self).samples@.last().position@ == reading.position@,
            final(self).samples@.last().elapsed_secs@ == reading.elapsed_secs@,
            final(self).samples@.last().mib_per_sec@ == reading.mib_per_sec@,
    {
        let index = self.samples.len();
        let offset = self.offsets[index];
        let ghost before = self.samples@;
        self.samples.push(
            Sample {
                index,
                offset,
                bytes_read: reading.bytes_read,
                position: reading.position,
                elapsed_secs: reading.elapsed_secs,
                mib_per_sec: reading.mib_per_sec,
            },
        );
        assert(forall|i: int| 0 <= i < index ==> #[trigger] self.samples@[i] == before[i]);
        assert(self.samples@.drop_last() =~= before);
    }

    /// The samples of a run that is through: one for each sample point, in order.
    pub fn finish(self) -> (samples: Vec<Sample>)
        requires
            self.wf(),
            self.due() is None,
        ensures
            samples == self.samples,
            report::covers(samples@, self.offsets@),
    {
        assert(self.offsets@.take(self.offsets@.len() as int) =~= self.offsets@);
        self.samples
    }
}

/// A run that is through has taken as many samples as were asked for, each with its number at
/// its planned offset.
pub proof fn law_finished_runs_cover_the_plan(progress: Progress, device_size: u64, bins: usize)
    requires
        bins > 0,
        progress.wf(),
        progress.due() is None,
        progress.offsets@ == sampling::planned_offsets(device_size as nat, bins as nat),
    ensures
        progress.samples@.len() == bins,
        forall|i: int|
            0 <= i < bins ==> {
                &&& (#[trigger] progress.samples@[i]).index == i
                &&& progress.samples@[i].offset == sampling::offset_at(
                    device_size as nat,
                    bins as nat,
                    i as nat,
                )
            },
{
    sampling::law_runs_take_all_samples(device_size, bins);
    assert forall|i: int| 0 <= i < bins implies {
        &&& (#[trigger] progress.samples@[i]).index == i
        &&& progress.samples@[i].offset == sampling::offset_at(
            device_size as nat,
            bins as nat,
            i as nat,
        )
    } by {
        sampling::law_offsets_are_aligned(device_size, bins, i);
    }
}

/// The sample that is due is that of the first sample point without one. None is due exactly when
/// every sample point has its sample, with its number and its own offset.
pub proof fn law_samples_are_due_in_order(progress: Progress)
    requires
        progress.wf(),
    ensures
        progress.due() matches Some((index, offset)) ==> {
            &&& index == progress.samples@.len()
            &&& index < progress.offsets@.len()
            &&& offset == progress.offsets@[index as int]
        },
        progress.due() is None <==> progress.samples@.len() == progress.offsets@.len(),
        forall|i: int|
            0 <= i < progress.samples@.len() ==> {
                &&& (#[trigger] progress.samples@[i]).index == i
                &&& progress.samples@[i].offset == progress.offsets@[i]
            },
{
    let taken = progress.offsets@.take(progress.samples@.len() as int);
    assert forall|i: int| 0 <= i < progress.samples@.len() implies {
        &&& (#[trigger] progress.samples@[i]).index == i
        &&& progress.samples@[i].offset == progress.offsets@[i]
    } by {
        assert(taken[i] == progress.offsets@[i]);
    }
}

/// A run of several samples that is through has its first sample at the start of the device and
/// its last one as far out as 1 GiB before the end lets it be, or one block of 4 KiB where the
/// device is no larger than 1 GiB and one such block.
pub proof fn law_finished_runs_span_the_device(progress: Progress, device_size: u64, bins: usize)
    requires
        bins > 1,
        device_size >= 4096,
        progress.wf(),
        progress.due() is None,
        progress.offsets@ == sampling::planned_offsets(device_size as nat, bins as nat),
    ensures
        progress.samples@.len() == bins,
        progress.samples@[0].offset == 0,
        ({
            let last = progress.samples@[bins - 1].offset;
            let runway: int = if device_size > 0x4000_1000 {
                0x4000_0000
            } else {
                4096
            };
            last + runway <= device_size < last + runway + 4096
        }),
{
    law_samples_are_due_in_order(progress);
    sampling::law_last_sample_point_is_before_the_runway(device_size, bins);
    sampling::law_sample_points_share_the_way_evenly(device_size, bins, 0);
    let first: int = 0;
    assert(progress.samples@[first].offset == progress.offsets@[first]);
    assert(progress.samples@[bins - 1].offset == progress.offsets@[bins - 1]);
}

} // verus!
