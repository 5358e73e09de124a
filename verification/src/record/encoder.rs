//! What comes of the calls to the system's video encoder.

use crate::text::{decimal, push_decimal};
use vstd::prelude::*;
use vstd::string::StringExecFns;

verus! {

/// The status of a writer that has written its file.
pub const COMPLETED: i64 = 2;

/// Why a frame or a file could not be written. Texts come from the system.
#[derive(Debug)]
pub enum EncoderError {
    /// The path of the file is not text.
    BadPath { path: String },
    /// There is no writer for the file.
    InitFailed { error: String },
    /// The writer does not take such a video.
    InputRejected,
    StartFailed { error: String },
    /// There is no pool of pixel buffers yet.
    NoPool,
    /// The pool made no buffer, for the given reason.
    NoBuffer { negative: bool, code: u32 },
    NullBuffer,
    /// The memory of a buffer cannot be shared.
    NotShared,
    AppendFailed { error: String },
    BadStatus { status: String, error: String },
}

impl EncoderError {
    pub open spec fn text(self) -> Seq<char> {
        match self {
            EncoderError::BadPath { path } => "output path is not valid UTF-8: "@ + path@,
            EncoderError::InitFailed { error } => "AVAssetWriter init failed: "@ + error@,
            EncoderError::InputRejected => "AVAssetWriter rejected the video input (codec/size mismatch?)"@,
            EncoderError::StartFailed { error } => "AVAssetWriter startWriting failed: "@ + error@,
            EncoderError::NoPool => "pixel buffer pool not ready (writer not started?)"@,
            EncoderError::NoBuffer { negative, code } => "CVPixelBufferPoolCreatePixelBuffer failed: "@
                + (if negative {
                "-"@
            } else {
                ""@
            }) + decimal(code as nat),
            EncoderError::NullBuffer => "pool returned a null pixel buffer"@,
            EncoderError::NotShared => "CVPixelBuffer is not IOSurface-backed"@,
            EncoderError::AppendFailed { error } => "appendPixelBuffer failed: "@ + error@,
            EncoderError::BadStatus { status, error } => "AVAssetWriter finish bad status "@
                + status@ + ": "@ + error@,
        }
    }

    pub fn message(&self) -> (r: String)
        ensures
            r@ == self.text(),
    {
        match self {
            EncoderError::BadPath { path } => {
                let mut out: String = String::from_str("output path is not valid UTF-8: ");
                out.append(path.as_str());
                out
            },
            EncoderError::InitFailed { error } => {
                let mut out: String = String::from_str("AVAssetWriter init failed: ");
                out.append(error.as_str());
                out
            },
            EncoderError::InputRejected => String::from_str(
                "AVAssetWriter rejected the video input (codec/size mismatch?)",
            ),
            EncoderError::StartFailed { error } => {
                let mut out: String = String::from_str("AVAssetWriter startWriting failed: ");
                out.append(error.as_str());
                out
            },
            EncoderError::NoPool => String::from_str(
                "pixel buffer pool not ready (writer not started?)",
            ),
            EncoderError::NoBuffer { negative, code } => {
                let mut out: String = String::from_str(
                    "CVPixelBufferPoolCreatePixelBuffer failed: ",
                );
                out.append(
                    if *negative {
                        "-"
                    } else {
                        ""
                    },
                );
                push_decimal(&mut out, *code as u64);
                out
            },
            EncoderError::NullBuffer => String::from_str("pool returned a null pixel buffer"),
            EncoderError::NotShared => String::from_str("CVPixelBuffer is not IOSurface-backed"),
            EncoderError::AppendFailed { error } => {
                let mut out: String = String::from_str("appendPixelBuffer failed: ");
                out.append(error.as_str());
                out
            },
            EncoderError::BadStatus { status, error } => {
                let mut out: String = String::from_str("AVAssetWriter finish bad status ");
                out.append(status.as_str());
                out.append(": ");
                out.append(error.as_str());
                out
            },
        }
    }
}

/// Whether a writer can be fed, given whether it takes such a video.
pub fn check_input(can_add: bool) -> (r: Result<(), EncoderError>)
    ensures
        can_add ==> r.is_ok(),
        !can_add ==> (r matches Err(EncoderError::InputRejected)),
{
    if can_add {
        Ok(())
    } else {
        Err(EncoderError::InputRejected)
    }
}

/// Whether a writer has been started, given the error of the system.
pub fn check_start(started: bool, error: String) -> (r: Result<(), EncoderError>)
    ensures
        started ==> r.is_ok(),
        !started ==> (r matches Err(EncoderError::StartFailed { error: e }) && e@ == error@),
{
    if started {
        Ok(())
    } else {
        Err(EncoderError::StartFailed { error })
    }
}

/// Whether a frame has been appended, given the error of the system.
pub fn check_append(appended: bool, error: String) -> (r: Result<(), EncoderError>)
    ensures
        appended ==> r.is_ok(),
        !appended ==> (r matches Err(EncoderError::AppendFailed { error: e }) && e@ == error@),
{
    if appended {
        Ok(())
    } else {
        Err(EncoderError::AppendFailed { error })
    }
}

/// A status without its sign.
pub open spec fn size_of_status(status: i32) -> int {
    if status < 0 {
        -(status as int)
    } else {
        status as int
    }
}

/// Whether the pool made a pixel buffer.
pub fn check_buffer(status: i32, null: bool) -> (r: Result<(), EncoderError>)
    ensures
        status != 0 ==> (r matches Err(EncoderError::NoBuffer { negative, code: size })
            && negative == (status < 0) && size == size_of_status(status)),
        status == 0 && null ==> (r matches Err(EncoderError::NullBuffer)),
        status == 0 && !null ==> r.is_ok(),
{
    if status != 0 {
        let size: u32 = if status < 0 {
            (-(status as i64)) as u32
        } else {
            status as u32
        };
        return Err(EncoderError::NoBuffer { negative: status < 0, code: size });
    }
    if null {
        return Err(EncoderError::NullBuffer);
    }
    Ok(())
}

/// What to do with a frame.
#[derive(Clone, Copy, Debug, PartialEq, Eq, Structural)]
pub enum AppendStep {
    /// The encoder is busy: wait for this many milliseconds and ask again.
    Wait(u64),
    Append,
}

/// Decide what to do with a frame, given whether the encoder is ready for it.
pub fn append_step(ready: bool) -> (r: AppendStep)
    ensures
        r == if ready {
            AppendStep::Append
        } else {
            AppendStep::Wait(1)
        },
{
    if ready {
        AppendStep::Append
    } else {
        AppendStep::Wait(1)
    }
}

/// Whether a file was written, given the status of its writer, that status as
/// text, and the error of the system.
pub fn check_finish(status: i64, status_text: String, error: String) -> (r: Result<
    (),
    EncoderError,
>)
    ensures
        status == COMPLETED ==> r.is_ok(),
        status != COMPLETED ==> (r matches Err(EncoderError::BadStatus { status: s, error: e })
            && s@ == status_text@ && e@ == error@),
{
    if status == COMPLETED {
        Ok(())
    } else {
        Err(EncoderError::BadStatus { status: status_text, error })
    }
}

} // verus!
