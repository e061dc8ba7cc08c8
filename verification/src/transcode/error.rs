//! What can go wrong in a transcode.
use vstd::prelude::*;

verus! {

/// Why a transcode failed. Failures of the codec library and of the file
/// system carry their own text.
#[derive(Debug)]
pub enum TranscodeError {
    Ffmpeg(String),
    EncoderNotFound(String),
    DecoderNotFound(String),
    InvalidConfig(String),
    Io(String),
}

/// What a `TranscodeError` says.
pub ghost enum TranscodeErrorModel {
    Ffmpeg(Seq<char>),
    EncoderNotFound(Seq<char>),
    DecoderNotFound(Seq<char>),
    InvalidConfig(Seq<char>),
    Io(Seq<char>),
}

impl DeepView for TranscodeError {
    type V = TranscodeErrorModel;

    open spec fn deep_view(&self) -> TranscodeErrorModel {
        match *self {
            TranscodeError::Ffmpeg(s) => TranscodeErrorModel::Ffmpeg(s@),
            TranscodeError::EncoderNotFound(s) => TranscodeErrorModel::EncoderNotFound(s@),
            TranscodeError::DecoderNotFound(s) => TranscodeErrorModel::DecoderNotFound(s@),
            TranscodeError::InvalidConfig(s) => TranscodeErrorModel::InvalidConfig(s@),
            TranscodeError::Io(s) => TranscodeErrorModel::Io(s@),
        }
    }
}

impl TranscodeErrorModel {
    /// The text shown to the user.
    pub open spec fn message_text(self) -> Seq<char> {
        match self {
            TranscodeErrorModel::Ffmpeg(s) => "FFmpeg error: "@ + s,
            TranscodeErrorModel::EncoderNotFound(s) => "Encoder not found: "@ + s,
            TranscodeErrorModel::DecoderNotFound(s) => "Decoder not found: "@ + s,
            TranscodeErrorModel::InvalidConfig(s) => "Invalid config: "@ + s,
            TranscodeErrorModel::Io(s) => "IO error: "@ + s,
        }
    }
}

impl TranscodeError {
    /// The text shown to the user.
    pub fn message(&self) -> (r: String)
        ensures
            r@ == self.deep_view().message_text(),
    {
        match self {
            TranscodeError::Ffmpeg(s) => "FFmpeg error: ".to_owned().concat(s.as_str()),
            TranscodeError::EncoderNotFound(s) => "Encoder not found: ".to_owned().concat(
                s.as_str(),
            ),
            TranscodeError::DecoderNotFound(s) => "Decoder not found: ".to_owned().concat(
                s.as_str(),
            ),
            TranscodeError::InvalidConfig(s) => "Invalid config: ".to_owned().concat(s.as_str()),
            TranscodeError::Io(s) => "IO error: ".to_owned().concat(s.as_str()),
        }
    }
}

} // verus!
