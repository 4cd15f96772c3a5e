//! Recovery of files sent as sequences of QR codes recorded on video.
pub mod codec;
pub mod completion_detector;
pub mod decode_qr_files;
pub mod error_handler;
pub mod events;
pub mod file_reconstruction;
pub mod keyed;
pub mod qr_extraction;
pub mod resume_controller;
pub mod resume_state;
pub mod settings;
pub mod text;
pub mod tui;
