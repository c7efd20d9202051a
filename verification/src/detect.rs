//! Detection of transcript files and sound files by file name and
//! content. Paths are handled as plain byte strings: the file name is
//! what follows the last slash, the extension what follows its last dot.

use vstd::prelude::*;

use crate::bytes::{bytes_eq, spec_rfind, rfind_byte};
use crate::timestamp::{spec_last_ts, Timestamp};
use vstd::string::StringSliceAdditionalSpecFns;

verus! {

/// Lowers an ASCII uppercase letter; other bytes are unchanged.
pub open spec fn spec_to_lower(b: u8) -> u8 {
    if 65 <= b <= 90 {
        (b + 32) as u8
    } else {
        b
    }
}

/// Every ASCII uppercase letter of a byte string, lowered.
pub open spec fn spec_lowered(s: Seq<u8>) -> Seq<u8> {
    s.map_values(|b: u8| spec_to_lower(b))
}

/// Where the file name of a path starts: directly after the last slash,
/// or at the beginning when there is none.
pub open spec fn spec_file_name_start(path: Seq<u8>) -> int {
    match spec_rfind(path, 47, path.len() - 1) {
        Some(i) => i + 1,
        None => 0,
    }
}

/// The extension of a path: what follows the last dot of its file name,
/// provided that dot is not the file name's first byte. A name without
/// such a dot has no extension.
pub open spec fn spec_extension(path: Seq<u8>) -> Option<Seq<u8>> {
    let fs = spec_file_name_start(path);
    match spec_rfind(path, 46, path.len() - 1) {
        Some(d) => if d > fs {
            Some(path.subrange(d + 1, path.len() as int))
        } else {
            None
        },
        None => None,
    }
}

/// The file endings accepted as sound files, lexicographically sorted:
/// mostly audio formats, with some video formats.
pub open spec fn spec_accepted_endings() -> Seq<Seq<u8>> {
    seq![
        "3gp".spec_bytes(),
        "aac".spec_bytes(),
        "act".spec_bytes(),
        "amr".spec_bytes(),
        "avi".spec_bytes(),
        "flac".spec_bytes(),
        "m4a".spec_bytes(),
        "m4b".spec_bytes(),
        "mp3".spec_bytes(),
        "mp4".spec_bytes(),
        "oga".spec_bytes(),
        "oog".spec_bytes(),
        "vox".spec_bytes(),
        "wav".spec_bytes(),
        "webm".spec_bytes(),
        "wma".spec_bytes(),
    ]
}

/// The accepted sound-file endings, in their lexicographic order.
pub fn accepted_file_endings() -> (r: Vec<&'static str>)
    ensures
        r@.len() == spec_accepted_endings().len(),
        forall|k: int|
            0 <= k < r@.len() ==> (#[trigger] r@[k]).spec_bytes() == spec_accepted_endings()[k],
{
    let r: Vec<&'static str> = vec![
        "3gp", "aac", "act", "amr", "avi", "flac", "m4a", "m4b", "mp3", "mp4", "oga", "oog", "vox",
        "wav", "webm", "wma",
    ];
    proof {
        assert(forall|k: int|
            0 <= k < r@.len() ==> (#[trigger] r@[k]).spec_bytes() == spec_accepted_endings()[k])
            by {
            assert(spec_accepted_endings().len() == 16);
        };
    }
    r
}

/// Whether a path names a file that appears to be a transcript: it must
/// carry the `rtf` extension and the head of its content must hold at
/// least one timestamp. The caller supplies the name and the content
/// head it read (the first few kibibytes suffice).
pub fn is_transcript(name: &[u8], head: &[u8]) -> (r: bool)
    ensures
        r == (spec_extension(name@) == Some("rtf".spec_bytes()) && spec_last_ts(head@) is Some),
{
    has_rtf_extension(name) && Timestamp::contains_timestamps(head)
}

/// Whether the path carries the `rtf` extension, case-sensitively.
fn has_rtf_extension(name: &[u8]) -> (r: bool)
    ensures
        r == (spec_extension(name@) == Some("rtf".spec_bytes())),
{
    match extension_of(name) {
        Some(ext) => bytes_eq(ext, "rtf".as_bytes()),
        None => false,
    }
}

/// The extension of the path, if it has one.
pub(crate) fn extension_of(name: &[u8]) -> (r: Option<&[u8]>)
    ensures
        match r {
            Some(e) => spec_extension(name@) == Some(e@),
            None => spec_extension(name@) is None,
        },
{
    let _n: usize = name.len();
    let fs: usize = match rfind_byte(name, 47) {
        Some(i) => i + 1,
        None => 0,
    };
    match rfind_byte(name, 46) {
        Some(d) => {
            if d > fs {
                Some(vstd::slice::slice_subrange(name, d + 1, name.len()))
            } else {
                None
            }
        },
        None => None,
    }
}

/// Whether a path names a sound file: its extension, lowered, must be
/// one of the accepted file endings.
pub fn is_sound_file(file: &[u8]) -> (r: bool)
    ensures
        r == match spec_extension(file@) {
            Some(e) => spec_accepted_endings().contains(spec_lowered(e)),
            None => false,
        },
{
    let ext = match extension_of(file) {
        Some(e) => e,
        None => {
            return false;
        },
    };
    let lowered = to_lower_bytes(ext);
    let endings = accepted_file_endings();
    let ghost target = spec_lowered(ext@);
    let mut k: usize = 0;
    while k < endings.len()
        invariant
            spec_extension(file@) == Some(ext@),
            target == spec_lowered(ext@),
            lowered@ == target,
            endings@.len() == spec_accepted_endings().len(),
            forall|j: int|
                0 <= j < endings@.len() ==> (#[trigger] endings@[j]).spec_bytes()
                    == spec_accepted_endings()[j],
            0 <= k <= endings@.len(),
            forall|j: int| 0 <= j < k ==> spec_accepted_endings()[j] != target,
        decreases endings@.len() - k,
    {
        if bytes_eq(lowered.as_slice(), endings[k].as_bytes()) {
            assert(spec_accepted_endings().contains(target)) by {
                assert(spec_accepted_endings()[k as int] == target);
            };
            return true;
        }
        k = k + 1;
    }
    proof {
        assert(!spec_accepted_endings().contains(target));
    }
    false
}

/// Lowers every ASCII uppercase letter of a byte string.
fn to_lower_bytes(s: &[u8]) -> (r: Vec<u8>)
    ensures
        r@ == spec_lowered(s@),
{
    let mut r: Vec<u8> = Vec::new();
    let mut i: usize = 0;
    while i < s.len()
        invariant
            0 <= i <= s@.len(),
            r@ == spec_lowered(s@.subrange(0, i as int)),
        decreases s@.len() - i,
    {
        let b = s[i];
        let lowered: u8 = if 65 <= b && b <= 90 {
            b + 32
        } else {
            b
        };
        r.push(lowered);
        i = i + 1;
        proof {
            assert(r@ =~= spec_lowered(s@.subrange(0, i as int)));
        }
    }
    proof {
        assert(s@.subrange(0, s@.len() as int) =~= s@);
    }
    r
}

} // verus!
