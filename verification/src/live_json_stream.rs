//! Text framing of a live JSON stream file. The file must parse as JSON
//! after every write, so it always ends in `]}`: a new record overwrites
//! the previous close (two bytes back from the end) and appends itself
//! together with a fresh close. The file handle itself stays with the
//! caller; the exact text and the seek offset are decided here.

use vstd::prelude::*;

verus! {

/// The opening text of a stream file: the array starts with two filler
/// characters that stand in for the close the first record overwrites.
pub fn stream_setup_text() -> (r: String)
    ensures
        r@ == "{\"data_stream\": [\n&&"@,
{
    String::from_str("{\"data_stream\": [\n&&")
}

/// The text appended for one record: a comma for every record after the
/// first, the serialized record, and the close that keeps the file JSON.
pub fn stream_chunk(first_item: bool, serialized: &str) -> (r: String)
    ensures
        r@ == (if first_item {
            "\n"@
        } else {
            ",\n"@
        }) + serialized@ + "]}"@,
{
    let mut out = if first_item {
        String::from_str("\n")
    } else {
        String::from_str(",\n")
    };
    out.append(serialized);
    out.append("]}");
    out
}

/// Where a record must be written so that it overwrites the two closing
/// characters at the end of the file: two bytes back from `stream_position`,
/// or nothing if the file is still shorter than one close.
pub fn overwrite_offset(stream_position: u64) -> (r: Option<u64>)
    ensures
        r == (if stream_position >= 2 {
            Some((stream_position - 2) as u64)
        } else {
            None::<u64>
        }),
{
    if stream_position >= 2 {
        Some(stream_position - 2)
    } else {
        None
    }
}

} // verus!
