//! The rules of an unattended meeting recorder.

pub mod base64;
pub mod clock;
pub mod documents;
pub mod loopback_capture;
pub mod meeting_detector;
pub mod meeting_title;
pub mod portable;
pub mod realtime;
pub mod secret;
pub mod self_test;
pub mod session;
pub mod settings;
pub mod text;
pub mod transcript_export;
pub mod unicode;
pub mod vectorize;
