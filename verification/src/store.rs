//! What a stored checkpoint file testifies to.
//!
//! One file, rewritten in full after every settled trainee. Reading and writing
//! it is the job of whoever owns the filesystem; this is what a read yields.

use vstd::prelude::*;

use crate::checkpoint::BatchCheckpoint;
use crate::text::same_text;

verus! {

/// Default file name, a sibling of the job file that started the batch.
pub const DEFAULT_FILE_NAME: &'static str = "dssp.checkpoint.json";

/// Overrides the location.
pub const PATH_ENV: &'static str = "DSSP_CHECKPOINT";

/// What `serde_json` makes of `text` read as loose JSON: the parser's error
/// message when it is not JSON, `None` when it is JSON but not an object, else
/// the object's keys in the order its map holds them.
pub uninterp spec fn json_object_keys(text: Seq<char>) -> Result<Option<Seq<Seq<char>>>, Seq<char>>;

/// `serde_json::from_str::<serde_json::Value>`, then `as_object` and the
/// object's `keys`; the parse error is handed on as its message.
#[verifier::external_body]
fn object_keys(text: &str) -> (found: Result<Option<Vec<String>>, String>)
    ensures
        match found {
            Ok(Some(keys)) => json_object_keys(text@) == Ok::<Option<Seq<Seq<char>>>, Seq<char>>(
                Some(keys@.map_values(|k: String| k@)),
            ),
            Ok(None) => json_object_keys(text@) == Ok::<Option<Seq<Seq<char>>>, Seq<char>>(None),
            Err(e) => json_object_keys(text@) == Err::<Option<Seq<Seq<char>>>, Seq<char>>(e@),
        },
{
    match serde_json::from_str::<serde_json::Value>(text) {
        Ok(raw) => match raw.as_object() {
            Some(object) => Ok(Some(object.keys().cloned().collect())),
            None => Ok(None),
        },
        Err(e) => Err(e.to_string()),
    }
}

/// Why a stored file read from `path` cannot be trusted: the parser's words.
pub open spec fn unreadable_file_text(path: Seq<char>, error: Seq<char>) -> Seq<char> {
    path + ": unreadable checkpoint: "@ + error
}

/// Whether the stored file text at `path` records the trainee in flight at
/// all: whether it is a JSON object with an `in_flight` key, present even when
/// null. An absent key and a null one read into the same struct, so this is
/// asked of the raw text. Text that is not JSON is an error, never "no key".
pub fn tracks_in_flight(path: &str, text: &str) -> (tracks: Result<bool, String>)
    ensures
        match json_object_keys(text@) {
            Ok(Some(keys)) => tracks == Ok::<bool, String>(keys.contains("in_flight"@)),
            Ok(None) => tracks == Ok::<bool, String>(false),
            Err(e) => tracks matches Err(m) && m@ == unreadable_file_text(path@, e),
        },
{
    match object_keys(text) {
        Ok(Some(keys)) => {
            let ghost views = keys@.map_values(|k: String| k@);
            let mut found = false;
            let mut i: usize = 0;
            while i < keys.len()
                invariant
                    views == keys@.map_values(|k: String| k@),
                    i <= keys@.len(),
                    found == exists|j: int| 0 <= j < i && #[trigger] views[j] == "in_flight"@,
                decreases keys@.len() - i,
            {
                if same_text(keys[i].as_str(), "in_flight") {
                    assert(views[i as int] == "in_flight"@);
                    found = true;
                }
                i += 1;
            }
            Ok(found)
        },
        Ok(None) => Ok(false),
        Err(e) => {
            let mut m = String::from_str(path);
            m.append(": unreadable checkpoint: ");
            m.append(e.as_str());
            Err(m)
        },
    }
}

/// A checkpoint as it was on disk, plus what the file itself testifies to.
pub struct StoredCheckpoint {
    pub checkpoint: BatchCheckpoint,
    /// Whether the build that wrote this file recorded the trainee it was
    /// submitting: whether the file has an `in_flight` key at all.
    ///
    /// Not the same question as `checkpoint.in_flight.is_none()`: an absent
    /// key and a null one read into the same struct. A build without the field
    /// wrote only at settle points, so a crash mid-submission leaves the
    /// trainee it was working on at the head of `pending`.
    pub tracks_in_flight: bool,
}

} // verus!
