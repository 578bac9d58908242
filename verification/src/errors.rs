//! Error taxonomy of the tracking pipeline.
//!
//! Session-fatal errors end the running session and publish a message to the
//! control surface; recoverable errors skip the current tick and let the
//! loop continue.

use vstd::prelude::*;

verus! {

/// Everything that can go wrong inside a tracking session.
#[derive(Clone, Copy, Debug, PartialEq, Eq, Structural)]
pub enum TrackError {
    /// The camera device could not be opened (session-fatal).
    DeviceUnavailable,
    /// The reference data or the model file is missing or malformed
    /// (session-fatal).
    ModelLoadError,
    /// The local network endpoint could not be bound (session-fatal).
    BindError,
    /// A datagram could not be sent (session-fatal).
    SendFailed,
    /// A frame was malformed or empty (recoverable: the tick is skipped).
    DecodeSkip,
    /// The crop geometry was degenerate (recoverable: the tick is skipped).
    InvalidRoi,
}

impl TrackError {
    /// A session-fatal error clears the run flag and ends the session;
    /// a recoverable one only skips the current tick.
    pub open spec fn is_fatal_spec(self) -> bool {
        match self {
            TrackError::DeviceUnavailable => true,
            TrackError::ModelLoadError => true,
            TrackError::BindError => true,
            TrackError::SendFailed => true,
            TrackError::DecodeSkip => false,
            TrackError::InvalidRoi => false,
        }
    }

    /// Whether this error ends the session.
    pub fn is_fatal(&self) -> (r: bool)
        ensures
            r == self.is_fatal_spec(),
    {
        match self {
            TrackError::DeviceUnavailable => true,
            TrackError::ModelLoadError => true,
            TrackError::BindError => true,
            TrackError::SendFailed => true,
            TrackError::DecodeSkip => false,
            TrackError::InvalidRoi => false,
        }
    }

    /// A short human-readable description for the control surface.
    pub fn message(&self) -> (r: String)
        ensures
            r@.len() > 0,
    {
        let s = match self {
            TrackError::DeviceUnavailable => "camera device unavailable",
            TrackError::ModelLoadError => "model or reference data failed to load",
            TrackError::BindError => "failed to bind local network endpoint",
            TrackError::SendFailed => "failed to send pose datagram",
            TrackError::DecodeSkip => "malformed frame skipped",
            TrackError::InvalidRoi => "degenerate crop region skipped",
        };
        proof {
            reveal_strlit("camera device unavailable");
            reveal_strlit("model or reference data failed to load");
            reveal_strlit("failed to bind local network endpoint");
            reveal_strlit("failed to send pose datagram");
            reveal_strlit("malformed frame skipped");
            reveal_strlit("degenerate crop region skipped");
        }
        String::from_str(s)
    }
}

} // verus!
