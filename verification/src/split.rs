//! Pure path arithmetic for splitting interview recordings into
//! segments: choosing the output directory and building the enumerated
//! segment-file pattern. Paths are handled as plain byte strings, with
//! the file name after the last slash and the extension after its last
//! dot; running the external splitting tool is the caller's business.

use vstd::prelude::*;

use crate::bytes::{rfind_byte, spec_rfind};
use crate::detect::{spec_extension, spec_file_name_start};
use vstd::string::StringSliceAdditionalSpecFns;

verus! {

/// The parent of a path: everything before the last slash — the slash
/// itself when the path starts with its only one — or nothing when the
/// path is a bare file name.
pub open spec fn spec_parent(path: Seq<u8>) -> Seq<u8> {
    match spec_rfind(path, 47, path.len() - 1) {
        Some(i) => if i == 0 {
            path.subrange(0, 1)
        } else {
            path.subrange(0, i)
        },
        None => Seq::empty(),
    }
}

/// The directory segments are written to: the preferred directory when
/// one is given, else the recording's parent directory; nothing when the
/// choice is empty, in which case segments go to the working directory.
pub open spec fn spec_output_dir(preferred: Option<Seq<u8>>, interview: Seq<u8>) -> Option<
    Seq<u8>,
> {
    let c = match preferred {
        Some(p) => p,
        None => spec_parent(interview),
    };
    if c.len() > 0 {
        Some(c)
    } else {
        None
    }
}

/// Picks the directory to write segments to: the preferred output
/// directory, or the recording's parent directory. An empty choice means
/// the working directory. Whether the directory exists is the caller's
/// check.
pub fn output_directory_or_interview_parent(
    preferred_output_directory: Option<&[u8]>,
    interview_path: &[u8],
) -> (r: Option<Vec<u8>>)
    ensures
        match r {
            Some(d) => spec_output_dir(
                match preferred_output_directory {
                    Some(p) => Some(p@),
                    None => None,
                },
                interview_path@,
            ) == Some(d@),
            None => spec_output_dir(
                match preferred_output_directory {
                    Some(p) => Some(p@),
                    None => None,
                },
                interview_path@,
            ) is None,
        },
{
    match preferred_output_directory {
        Some(p) => {
            if p.len() > 0 {
                Some(vstd::slice::slice_to_vec(p))
            } else {
                None
            }
        },
        None => {
            match rfind_byte(interview_path, 47) {
                Some(i) => {
                    if i == 0 {
                        Some(vstd::slice::slice_to_vec(
                            vstd::slice::slice_subrange(interview_path, 0, 1),
                        ))
                    } else {
                        Some(vstd::slice::slice_to_vec(
                            vstd::slice::slice_subrange(interview_path, 0, i),
                        ))
                    }
                },
                None => None,
            }
        },
    }
}

/// The file stem of a path: its file name without the extension.
pub open spec fn spec_stem(path: Seq<u8>) -> Seq<u8> {
    let fs = spec_file_name_start(path);
    match spec_rfind(path, 46, path.len() - 1) {
        Some(d) => if d > fs {
            path.subrange(fs, d)
        } else {
            path.subrange(fs, path.len() as int)
        },
        None => path.subrange(fs, path.len() as int),
    }
}

/// A file name with its extension replaced: the part before the last dot
/// — all of it when there is no dot, or only a leading one — joined with
/// the new extension; an empty extension leaves a bare stem.
pub open spec fn spec_set_ext(name: Seq<u8>, e: Seq<u8>) -> Seq<u8> {
    let stem = match spec_rfind(name, 46, name.len() - 1) {
        Some(d) => if d > 0 {
            name.subrange(0, d)
        } else {
            name
        },
        None => name,
    };
    if e.len() == 0 {
        stem
    } else {
        stem + seq![46u8] + e
    }
}

/// The segment-file pattern for one recording: its stem with an
/// enumeration placeholder and its original extension, placed in the
/// output directory when one is chosen.
pub open spec fn spec_segment_pattern(dir: Option<Seq<u8>>, interview: Seq<u8>) -> Seq<u8> {
    let base = spec_stem(interview) + "-%03d".spec_bytes();
    let comp = match spec_extension(interview) {
        Some(e) => spec_set_ext(base, e),
        None => base,
    };
    match dir {
        Some(d) => if d.len() == 0 {
            comp
        } else if d.last() == 47 {
            d + comp
        } else {
            d + seq![47u8] + comp
        },
        None => comp,
    }
}

/// Builds the output pattern for the external splitting tool: the
/// recording's stem, an enumeration placeholder, the recording's
/// extension, in the given output directory or as a relative name.
pub fn segment_pattern(output_directory: Option<&[u8]>, interview: &[u8]) -> (r: Vec<u8>)
    requires
        spec_file_name_start(interview@) < interview@.len(),
    ensures
        r@ == spec_segment_pattern(
            match output_directory {
                Some(d) => Some(d@),
                None => None,
            },
            interview@,
        ),
{
    let _n: usize = interview.len();
    let fs: usize = match rfind_byte(interview, 47) {
        Some(i) => i + 1,
        None => 0,
    };
    let stem: &[u8] = match rfind_byte(interview, 46) {
        Some(d) => {
            if d > fs {
                vstd::slice::slice_subrange(interview, fs, d)
            } else {
                vstd::slice::slice_subrange(interview, fs, interview.len())
            }
        },
        None => vstd::slice::slice_subrange(interview, fs, interview.len()),
    };
    let mut base: Vec<u8> = Vec::new();
    crate::bytes::append_bytes(&mut base, stem);
    crate::bytes::append_bytes(&mut base, "-%03d".as_bytes());
    assert(base@ == spec_stem(interview@) + "-%03d".spec_bytes());
    let comp: Vec<u8> = match crate::detect::extension_of(interview) {
        Some(e) => set_ext(base.as_slice(), e),
        None => base,
    };
    assert(comp@ == (match spec_extension(interview@) {
        Some(e) => spec_set_ext(spec_stem(interview@) + "-%03d".spec_bytes(), e),
        None => spec_stem(interview@) + "-%03d".spec_bytes(),
    }));
    match output_directory {
        Some(d) => {
            if d.len() == 0 {
                comp
            } else {
                let mut r: Vec<u8> = Vec::new();
                crate::bytes::append_bytes(&mut r, d);
                if d[d.len() - 1] != 47 {
                    r.push(47);
                    assert(r@ =~= d@ + seq![47u8]);
                }
                crate::bytes::append_bytes(&mut r, comp.as_slice());
                r
            }
        },
        None => comp,
    }
}

/// Replaces the extension of a bare file name.
fn set_ext(name: &[u8], e: &[u8]) -> (r: Vec<u8>)
    ensures
        r@ == spec_set_ext(name@, e@),
{
    let _n: usize = name.len();
    let stem: &[u8] = match rfind_byte(name, 46) {
        Some(d) => {
            if d > 0 {
                vstd::slice::slice_subrange(name, 0, d)
            } else {
                name
            }
        },
        None => name,
    };
    let mut r: Vec<u8> = Vec::new();
    crate::bytes::append_bytes(&mut r, stem);
    if e.len() > 0 {
        r.push(46);
        assert(r@ =~= stem@ + seq![46u8]);
        crate::bytes::append_bytes(&mut r, e);
    }
    r
}

} // verus!
