//! The contexts under which processing errors are logged and reported, and
//! the known places where output escapes the event system.
use vstd::prelude::*;

use crate::events::string_views;
use crate::text::append_str;
use crate::text::decimal;
use crate::text::push_decimal;
use crate::text::string_from_chars;

verus! {

/// The places where console output bypasses the event system.
pub struct ConsoleOutputCapture;

fn strings_of3(a: &str, b: &str, c: &str) -> (r: Vec<String>)
    ensures
        string_views(r@) == seq![a@, b@, c@],
{
    let mut r: Vec<String> = Vec::new();
    r.push(String::from_str(a));
    r.push(String::from_str(b));
    r.push(String::from_str(c));
    proof {
        assert(string_views(r@) =~= seq![a@, b@, c@]);
    }
    r
}

impl ConsoleOutputCapture {
    /// The known console prints that can corrupt the terminal interface.
    pub fn audit_console_output() -> (r: Vec<String>)
        ensures
            string_views(r@) == seq![
                "src/qr_extraction.rs:791 - println! in streaming function"@,
                "src/events.rs:96-144 - ConsoleOutputHandler prints in TUI mode"@,
                "src/main.rs:357-375 - Demo mode prints"@,
            ],
    {
        strings_of3(
            "src/qr_extraction.rs:791 - println! in streaming function",
            "src/events.rs:96-144 - ConsoleOutputHandler prints in TUI mode",
            "src/main.rs:357-375 - Demo mode prints",
        )
    }

    /// The known ways in which other threads write past the interface.
    pub fn check_for_thread_output_leaks() -> (r: Vec<String>)
        ensures
            string_views(r@) == seq![
                "Background thread errors not routed through events"@,
                "FFmpeg stderr output not captured"@,
                "Panic handlers not redirected"@,
            ],
    {
        strings_of3(
            "Background thread errors not routed through events",
            "FFmpeg stderr output not captured",
            "Panic handlers not redirected",
        )
    }
}

/// The context of an FFmpeg error: `FFmpeg Error - Chunk N - OPERATION`,
/// with `N` the chunk's number (its id plus one).
pub fn ffmpeg_error_context(chunk_id: usize, operation: &str) -> (r: String)
    requires
        chunk_id < usize::MAX,
    ensures
        r@ == "FFmpeg Error - Chunk "@ + decimal(chunk_id as nat + 1) + " - "@ + operation@,
{
    let mut v: Vec<char> = Vec::new();
    append_str(&mut v, "FFmpeg Error - Chunk ");
    push_decimal(&mut v, (chunk_id + 1) as u64);
    append_str(&mut v, " - ");
    append_str(&mut v, operation);
    string_from_chars(&v)
}

/// The context of a memory error, with the chunk's number when there is a
/// chunk: `Memory Error - Chunk N - OPERATION` or `Memory Error - OPERATION`.
pub fn memory_error_context(chunk_id: Option<usize>, operation: &str) -> (r: String)
    requires
        chunk_id matches Some(id) ==> id < usize::MAX,
    ensures
        r@ == match chunk_id {
            Some(id) => "Memory Error - Chunk "@ + decimal(id as nat + 1) + " - "@ + operation@,
            None => "Memory Error - "@ + operation@,
        },
{
    let mut v: Vec<char> = Vec::new();
    match chunk_id {
        Some(id) => {
            append_str(&mut v, "Memory Error - Chunk ");
            push_decimal(&mut v, (id + 1) as u64);
            append_str(&mut v, " - ");
        },
        None => {
            append_str(&mut v, "Memory Error - ");
        },
    }
    append_str(&mut v, operation);
    string_from_chars(&v)
}

/// The context of an I/O error: `I/O Error - OPERATION - PATH`.
pub fn io_error_context(operation: &str, file_path: &str) -> (r: String)
    ensures
        r@ == "I/O Error - "@ + operation@ + " - "@ + file_path@,
{
    let mut v: Vec<char> = Vec::new();
    append_str(&mut v, "I/O Error - ");
    append_str(&mut v, operation);
    append_str(&mut v, " - ");
    append_str(&mut v, file_path);
    string_from_chars(&v)
}

/// The context of a QR decoding error: `QR Processing Error - Chunk N -
/// Frame F`.
pub fn qr_processing_error_context(chunk_id: usize, frame_number: u64) -> (r: String)
    requires
        chunk_id < usize::MAX,
    ensures
        r@ == "QR Processing Error - Chunk "@ + decimal(chunk_id as nat + 1) + " - Frame "@ + decimal(frame_number as nat),
{
    let mut v: Vec<char> = Vec::new();
    append_str(&mut v, "QR Processing Error - Chunk ");
    push_decimal(&mut v, (chunk_id + 1) as u64);
    append_str(&mut v, " - Frame ");
    push_decimal(&mut v, frame_number);
    string_from_chars(&v)
}

/// The context of a thread error: `Thread Error - NAME`.
pub fn thread_error_context(thread_name: &str) -> (r: String)
    ensures
        r@ == "Thread Error - "@ + thread_name@,
{
    let mut v: Vec<char> = Vec::new();
    append_str(&mut v, "Thread Error - ");
    append_str(&mut v, thread_name);
    string_from_chars(&v)
}

/// The context and message of a timeout: `Timeout - Chunk N` and
/// `Processing timeout after S seconds`.
pub fn timeout_report(chunk_id: usize, timeout_secs: u64) -> (r: (String, String))
    requires
        chunk_id < usize::MAX,
    ensures
        r.0@ == "Timeout - Chunk "@ + decimal(chunk_id as nat + 1),
        r.1@ == "Processing timeout after "@ + decimal(timeout_secs as nat) + " seconds"@,
{
    let mut c: Vec<char> = Vec::new();
    append_str(&mut c, "Timeout - Chunk ");
    push_decimal(&mut c, (chunk_id + 1) as u64);
    let mut e: Vec<char> = Vec::new();
    append_str(&mut e, "Processing timeout after ");
    push_decimal(&mut e, timeout_secs);
    append_str(&mut e, " seconds");
    (string_from_chars(&c), string_from_chars(&e))
}

/// The context of an exhausted resource: `Resource Exhaustion - RESOURCE`.
pub fn resource_exhaustion_context(resource: &str) -> (r: String)
    ensures
        r@ == "Resource Exhaustion - "@ + resource@,
{
    let mut v: Vec<char> = Vec::new();
    append_str(&mut v, "Resource Exhaustion - ");
    append_str(&mut v, resource);
    string_from_chars(&v)
}

} // verus!
