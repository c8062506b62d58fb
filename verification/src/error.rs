//! What can go wrong, and how it is worded.

use vstd::prelude::*;

use crate::sampling::ALIGNMENT;
use crate::text;

verus! {

/// Why a run ended early.
#[derive(Debug)]
pub enum RunError {
    /// The device could not be opened.
    Open { device: String, cause: String },
    /// The size of the device could not be determined.
    Size { device: String, cause: String },
    /// The device is empty.
    NoReadableBytes { device: String },
    /// The device is smaller than one aligned read.
    TooSmall { device: String },
    /// A read failed.
    Read { offset: u64, cause: String },
    /// A read ended off the alignment although more was to come.
    UnalignedRead { offset: u64, read: usize },
    /// An output file could not be written.
    Write { path: String, cause: String },
}

impl RunError {
    /// The wording of the error.
    pub open spec fn text(self) -> Seq<char> {
        match self {
            RunError::Open { device, cause } => "failed to open "@ + device@
                + " read-only with O_DIRECT: "@ + cause@,
            RunError::Size { device, cause } => "failed to determine size for "@ + device@ + ": "@
                + cause@,
            RunError::NoReadableBytes { device } => device@ + " has zero readable bytes"@,
            RunError::TooSmall { device } => device@ + " has fewer than "@ + text::decimal(
                ALIGNMENT as nat,
            ) + " readable bytes; direct I/O requires aligned reads"@,
            RunError::Read { offset, cause } => "read failed at offset "@ + text::decimal(
                offset as nat,
            ) + ": "@ + cause@,
            RunError::UnalignedRead { offset, read } => "unaligned short read at offset "@
                + text::decimal(offset as nat) + ": read "@ + text::decimal(read as nat)
                + " bytes"@,
            RunError::Write { path, cause } => "failed to write "@ + path@ + ": "@ + cause@,
        }
    }

    /// The wording of the error.
    pub fn message(&self) -> (message: String)
        ensures
            message@ == self.text(),
    {
        match self {
            RunError::Open { device, cause } => {
                let mut message = "failed to open ".to_owned();
                message.append(device.as_str());
                message.append(" read-only with O_DIRECT: ");
                message.append(cause.as_str());
                message
            },
            RunError::Size { device, cause } => {
                let mut message = "failed to determine size for ".to_owned();
                message.append(device.as_str());
                message.append(": ");
                message.append(cause.as_str());
                message
            },
            RunError::NoReadableBytes { device } => {
                let mut message = device.clone();
                message.append(" has zero readable bytes");
                message
            },
            RunError::TooSmall { device } => {
                let mut message = device.clone();
                message.append(" has fewer than ");
                text::push_decimal(&mut message, ALIGNMENT);
                message.append(" readable bytes; direct I/O requires aligned reads");
                message
            },
            RunError::Read { offset, cause } => {
                let mut message = "read failed at offset ".to_owned();
                text::push_decimal(&mut message, *offset);
                message.append(": ");
                message.append(cause.as_str());
                message
            },
            RunError::UnalignedRead { offset, read } => {
                let mut message = "unaligned short read at offset ".to_owned();
                text::push_decimal(&mut message, *offset);
                message.append(": read ");
                text::push_decimal(&mut message, *read as u64);
                message.append(" bytes");
                message
            },
            RunError::Write { path, cause } => {
                let mut message = "failed to write ".to_owned();
                message.append(path.as_str());
                message.append(": ");
                message.append(cause.as_str());
                message
            },
        }
    }
}

/// Whether `message` is made of these five parts in order.
pub open spec fn reads(
    message: Seq<char>,
    first: Seq<char>,
    value: Seq<char>,
    middle: Seq<char>,
    other: Seq<char>,
    last: Seq<char>,
) -> bool {
    let a = first.len() as int;
    let b = a + value.len();
    let c = b + middle.len();
    let d = c + other.len();
    &&& message.len() == d + last.len()
    &&& message.take(a) == first
    &&& message.subrange(a, b) == value
    &&& message.subrange(b, c) == middle
    &&& message.subrange(c, d) == other
    &&& message.skip(d) == last
}

/// An error with a cause names what failed, the device or file it failed on, and the whole cause.
pub proof fn law_failures_name_their_object_and_cause(object: String, cause: String, offset: u64)
    ensures
        reads(
            RunError::Open { device: object, cause }.text(),
            "failed to open "@,
            object@,
            " read-only with O_DIRECT: "@,
            cause@,
            seq![],
        ),
        reads(
            RunError::Size { device: object, cause }.text(),
            "failed to determine size for "@,
            object@,
            ": "@,
            cause@,
            seq![],
        ),
        reads(
            RunError::Write { path: object, cause }.text(),
            "failed to write "@,
            object@,
            ": "@,
            cause@,
            seq![],
        ),
        reads(
            RunError::Read { offset, cause }.text(),
            "read failed at offset "@,
            text::decimal(offset as nat),
            ": "@,
            cause@,
            seq![],
        ),
{
    lemma_reads("failed to open "@, object@, " read-only with O_DIRECT: "@, cause@, seq![]);
    lemma_reads("failed to determine size for "@, object@, ": "@, cause@, seq![]);
    lemma_reads("failed to write "@, object@, ": "@, cause@, seq![]);
    lemma_reads(
        "read failed at offset "@,
        text::decimal(offset as nat),
        ": "@,
        cause@,
        seq![],
    );
    let opened = RunError::Open { device: object, cause }.text();
    let sized = RunError::Size { device: object, cause }.text();
    let written = RunError::Write { path: object, cause }.text();
    let read = RunError::Read { offset, cause }.text();
    assert(opened + Seq::<char>::empty() =~= opened);
    assert(sized + Seq::<char>::empty() =~= sized);
    assert(written + Seq::<char>::empty() =~= written);
    assert(read + Seq::<char>::empty() =~= read);
}

/// A device that cannot be sampled is named with the reason, and an unaligned read with its own
/// offset and length.
pub proof fn law_refusals_name_their_reason(device: String, offset: u64, read: usize)
    ensures
        reads(
            RunError::NoReadableBytes { device }.text(),
            seq![],
            device@,
            " has zero readable bytes"@,
            seq![],
            seq![],
        ),
        reads(
            RunError::TooSmall { device }.text(),
            seq![],
            device@,
            " has fewer than "@,
            text::decimal(4096),
            " readable bytes; direct I/O requires aligned reads"@,
        ),
        reads(
            RunError::UnalignedRead { offset, read }.text(),
            "unaligned short read at offset "@,
            text::decimal(offset as nat),
            ": read "@,
            text::decimal(read as nat),
            " bytes"@,
        ),
{
    let none = Seq::<char>::empty();
    assert(none + device@ =~= device@);
    lemma_reads(none, device@, " has zero readable bytes"@, none, none);
    lemma_reads(
        none,
        device@,
        " has fewer than "@,
        text::decimal(4096),
        " readable bytes; direct I/O requires aligned reads"@,
    );
    lemma_reads(
        "unaligned short read at offset "@,
        text::decimal(offset as nat),
        ": read "@,
        text::decimal(read as nat),
        " bytes"@,
    );
    let empty = RunError::NoReadableBytes { device }.text();
    assert(empty + none + none =~= empty);
}

proof fn lemma_reads(
    first: Seq<char>,
    value: Seq<char>,
    middle: Seq<char>,
    other: Seq<char>,
    last: Seq<char>,
)
    ensures
        reads(first + value + middle + other + last, first, value, middle, other, last),
{
    let message = first + value + middle + other + last;
    let a = first.len() as int;
    let b = a + value.len();
    let c = b + middle.len();
    let d = c + other.len();
    assert(message.take(a) =~= first);
    assert(message.subrange(a, b) =~= value);
    assert(message.subrange(b, c) =~= middle);
    assert(message.subrange(c, d) =~= other);
    assert(message.skip(d) =~= last);
}

} // verus!
