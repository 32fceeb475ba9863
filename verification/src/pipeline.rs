//! The whole pipeline over an in-memory snapshot of file contents, and the
//! input configuration it runs under.
//!
//! Traversal, metadata reads and content reads are I/O and live with the
//! caller; everything after them — sizing, culling, hashing, grouping and
//! rendering — is a function of the snapshot alone and is implemented and
//! specified here.
use vstd::prelude::*;

use vstd::slice::slice_to_vec;

use crate::candidate::CandidateFile;
use crate::cull::lemma_cull_members;
use crate::cull::lemma_cull_pointwise;
use crate::cull::spec_cull;
use crate::cull::StageKey;
use crate::hashing::prefix_of;
use crate::hashing::spec_prefix;
use crate::report::all_have_keys;
use crate::report::format_results;
use crate::report::spec_format_results;
use crate::stages::cull_by_filesize;
use crate::stages::cull_by_hash;
use crate::stages::cull_by_start;
use crate::stages::lemma_min_size_members;
use crate::stages::spec_cull_by_filesize;
use crate::stages::spec_cull_by_hash;
use crate::stages::spec_cull_by_start;
use crate::stages::spec_min_size_kept;
use crate::stages::spec_with_hash;
use crate::stages::spec_with_hashes;

verus! {

/// Input configuration of one duplicate-detection run. Immutable once
/// constructed; tunables are never read from ambient state mid-pipeline.
pub struct Opt {
    /// Root directories to scan.
    pub paths: Vec<String>,
    /// Report elapsed wall-clock time at completion.
    pub timing: bool,
    /// Emit per-stage candidate-count diagnostics.
    pub debug: bool,
    /// Minimum file size in bytes; files below it are excluded entirely.
    pub minimum: Option<u64>,
}

impl Default for Opt {
    /// No roots, no diagnostics, no explicit minimum.
    fn default() -> (o: Opt)
        ensures
            o.paths@.len() == 0,
            !o.timing,
            !o.debug,
            o.minimum is None,
    {
        Opt { paths: Vec::new(), timing: false, debug: false, minimum: None }
    }
}

impl Opt {
    /// A configuration that scans `paths` with everything else at its
    /// default, as a front end builds one from the roots the user picked.
    pub fn from_paths(paths: Vec<String>) -> (o: Opt)
        ensures
            o.paths == paths,
            !o.timing,
            !o.debug,
            o.minimum is None,
    {
        Opt { paths, timing: false, debug: false, minimum: None }
    }
}

/// The minimum size the pipeline applies: the configured one, or one byte, so
/// that empty files never report as duplicates unless asked for.
pub open spec fn spec_effective_minimum(minimum: Option<u64>) -> u64 {
    match minimum {
        Some(m) => m,
        None => 1,
    }
}

/// The minimum size the pipeline applies for a configured `minimum`.
pub fn effective_minimum(minimum: Option<u64>) -> (m: u64)
    ensures
        m == spec_effective_minimum(minimum),
{
    match minimum {
        Some(m) => m,
        None => 1,
    }
}

/// One file of an in-memory filesystem snapshot: its path and full content.
pub struct FileEntry {
    pub path: String,
    pub content: Vec<u8>,
}

/// The content the snapshot holds for `path`: the first entry's, where two
/// entries carry the same path.
pub open spec fn spec_content_of(files: Seq<FileEntry>, path: Seq<char>) -> Option<Seq<u8>>
    decreases files.len(),
{
    if files.len() == 0 {
        None
    } else if files[0].path@ == path {
        Some(files[0].content@)
    } else {
        spec_content_of(files.drop_first(), path)
    }
}

/// Look up the content the snapshot holds for `path`.
fn content_of<'a>(files: &'a Vec<FileEntry>, path: &String) -> (r: Option<&'a Vec<u8>>)
    ensures
        match r {
            Some(v) => spec_content_of(files@, path@) == Some(v@),
            None => spec_content_of(files@, path@) is None,
        },
{
    let n = files.len();
    let mut i: usize = 0;
    proof {
        assert(files@.skip(0) =~= files@);
    }
    while i < n
        invariant
            n == files@.len(),
            i <= n,
            spec_content_of(files@, path@) == spec_content_of(files@.skip(i as int), path@),
        decreases n - i,
    {
        proof {
            assert(files@.skip(i as int)[0] == files@[i as int]);
            assert(files@.skip(i as int).drop_first() =~= files@.skip(i + 1));
        }
        if files[i].path == *path {
            return Some(&files[i].content);
        }
        i = i + 1;
    }
    proof {
        assert(files@.skip(n as int) =~= Seq::<FileEntry>::empty());
    }
    None
}

/// Each snapshot file as a fresh candidate carrying its byte length.
pub open spec fn spec_initial_candidates(files: Seq<FileEntry>) -> Seq<CandidateFile> {
    files.map_values(
        |f: FileEntry|
            CandidateFile {
                path: f.path,
                size: Some(f.content@.len() as u64),
                start_hash: None,
                full_hash: None,
            },
    )
}

/// Wrap each snapshot file as a candidate with its size recorded.
pub fn initial_candidates(files: &Vec<FileEntry>) -> (out: Vec<CandidateFile>)
    ensures
        out@ == spec_initial_candidates(files@),
{
    let ghost target = spec_initial_candidates(files@);
    let n = files.len();
    let mut out: Vec<CandidateFile> = Vec::new();
    let mut i: usize = 0;
    while i < n
        invariant
            n == files@.len(),
            i <= n,
            target == spec_initial_candidates(files@),
            out@ == target.take(i as int),
        decreases n - i,
    {
        let f = &files[i];
        let c = CandidateFile {
            path: f.path.clone(),
            size: Some(f.content.len() as u64),
            start_hash: None,
            full_hash: None,
        };
        proof {
            assert(c == target[i as int]);
            assert(target.take(i + 1) =~= target.take(i as int).push(target[i as int]));
        }
        out.push(c);
        i = i + 1;
    }
    proof {
        assert(target.take(n as int) =~= target);
    }
    out
}

/// The bounded content prefix of each candidate's file, by snapshot lookup.
pub open spec fn spec_prefixes_for(s: Seq<CandidateFile>, files: Seq<FileEntry>) -> Seq<
    Option<Seq<u8>>,
> {
    Seq::new(
        s.len(),
        |i: int|
            match spec_content_of(files, s[i].path@) {
                Some(c) => Some(spec_prefix(c)),
                None => None,
            },
    )
}

/// The full content of each candidate's file, by snapshot lookup.
pub open spec fn spec_contents_for(s: Seq<CandidateFile>, files: Seq<FileEntry>) -> Seq<
    Option<Seq<u8>>,
> {
    Seq::new(s.len(), |i: int| spec_content_of(files, s[i].path@))
}

/// Read out the bounded prefix of each candidate's content.
fn prefixes_for(s: &Vec<CandidateFile>, files: &Vec<FileEntry>) -> (out: Vec<Option<Vec<u8>>>)
    ensures
        out@.len() == s@.len(),
        out.deep_view() == spec_prefixes_for(s@, files@),
{
    let ghost target = spec_prefixes_for(s@, files@);
    let n = s.len();
    let mut out: Vec<Option<Vec<u8>>> = Vec::new();
    let mut i: usize = 0;
    while i < n
        invariant
            n == s@.len(),
            i <= n,
            target == spec_prefixes_for(s@, files@),
            out@.len() == i,
            out.deep_view() == target.take(i as int),
        decreases n - i,
    {
        let ghost prev = out.deep_view();
        let elem: Option<Vec<u8>> = match content_of(files, &s[i].path) {
            Some(v) => Some(prefix_of(v)),
            None => None,
        };
        proof {
            assert(elem.deep_view() == target[i as int]);
        }
        out.push(elem);
        proof {
            assert(out.deep_view() =~= prev.push(elem.deep_view()));
            assert(target.take(i + 1) =~= target.take(i as int).push(target[i as int]));
        }
        i = i + 1;
    }
    proof {
        assert(target.take(n as int) =~= target);
    }
    out
}

/// Read out the whole content of each candidate's file.
fn contents_for(s: &Vec<CandidateFile>, files: &Vec<FileEntry>) -> (out: Vec<Option<Vec<u8>>>)
    ensures
        out@.len() == s@.len(),
        out.deep_view() == spec_contents_for(s@, files@),
{
    let ghost target = spec_contents_for(s@, files@);
    let n = s.len();
    let mut out: Vec<Option<Vec<u8>>> = Vec::new();
    let mut i: usize = 0;
    while i < n
        invariant
            n == s@.len(),
            i <= n,
            target == spec_contents_for(s@, files@),
            out@.len() == i,
            out.deep_view() == target.take(i as int),
        decreases n - i,
    {
        let ghost prev = out.deep_view();
        let elem: Option<Vec<u8>> = match content_of(files, &s[i].path) {
            Some(v) => Some(slice_to_vec(v.as_slice())),
            None => None,
        };
        proof {
            assert(elem.deep_view() == target[i as int]);
        }
        out.push(elem);
        proof {
            assert(out.deep_view() =~= prev.push(elem.deep_view()));
            assert(target.take(i + 1) =~= target.take(i as int).push(target[i as int]));
        }
        i = i + 1;
    }
    proof {
        assert(target.take(n as int) =~= target);
    }
    out
}

/// The confirmed duplicate set of a snapshot: the survivors of the size cull,
/// the prefix-hash cull and the full-hash cull, in input order.
pub open spec fn spec_detect_survivors(files: Seq<FileEntry>, minimum: u64) -> Seq<CandidateFile> {
    let s1 = spec_cull_by_filesize(spec_initial_candidates(files), minimum);
    let s2 = spec_cull_by_start(s1, spec_prefixes_for(s1, files));
    spec_cull_by_hash(s2, spec_contents_for(s2, files))
}

/// The pipeline's whole output for a snapshot: its confirmed duplicate set,
/// sorted and rendered.
pub open spec fn spec_detect_dupes(files: Seq<FileEntry>, minimum: u64) -> Seq<char> {
    spec_format_results(spec_detect_survivors(files, minimum))
}

/// Every confirmed duplicate carries a known size (not below the minimum), a
/// known prefix hash and a known full-content hash.
pub proof fn lemma_survivor_fields(files: Seq<FileEntry>, minimum: u64)
    ensures
        forall|i: int|
            0 <= i < spec_detect_survivors(files, minimum).len() ==> {
                let c = #[trigger] spec_detect_survivors(files, minimum)[i];
                &&& c.size is Some
                &&& c.size->0 >= minimum
                &&& c.start_hash is Some
                &&& c.full_hash is Some
            },
{
    let s0 = spec_initial_candidates(files);
    let kept = spec_min_size_kept(s0, minimum);
    let s1 = spec_cull(kept, StageKey::Size);
    let h2 = spec_with_hashes(s1, spec_prefixes_for(s1, files), StageKey::Start);
    let s2 = spec_cull(h2, StageKey::Start);
    let h3 = spec_with_hashes(s2, spec_contents_for(s2, files), StageKey::Full);
    let s3 = spec_cull(h3, StageKey::Full);

    let sized = |c: CandidateFile| c.size is Some && c.size->0 >= minimum;
    lemma_min_size_members(s0, minimum);
    lemma_cull_pointwise(kept, StageKey::Size, sized);

    let sized_started = |c: CandidateFile|
        c.size is Some && c.size->0 >= minimum && c.start_hash is Some;
    assert forall|j: int| 0 <= j < h2.len() implies sized(#[trigger] h2[j]) by {
        assert(h2[j] == spec_with_hash(s1[j], spec_prefixes_for(s1, files)[j], StageKey::Start));
    }
    lemma_cull_members(h2, StageKey::Start);
    lemma_cull_pointwise(h2, StageKey::Start, sized);
    assert forall|j: int| 0 <= j < s2.len() implies sized_started(#[trigger] s2[j]) by {
        assert(crate::cull::survives(h2, StageKey::Start, s2[j]));
    }

    assert forall|j: int| 0 <= j < h3.len() implies sized_started(#[trigger] h3[j]) by {
        assert(h3[j] == spec_with_hash(s2[j], spec_contents_for(s2, files)[j], StageKey::Full));
    }
    lemma_cull_members(h3, StageKey::Full);
    lemma_cull_pointwise(h3, StageKey::Full, sized_started);
    assert forall|j: int|
        0 <= j < s3.len() implies (#[trigger] s3[j]).full_hash is Some by {
        assert(crate::cull::survives(h3, StageKey::Full, s3[j]));
    }
}

/// Detect duplicate files in a snapshot: cull by size, then by a hash of a
/// bounded content prefix, then by a hash of the full content, and render the
/// confirmed groups deterministically — one `"<size>: <path> | <path>\n"`
/// line per group. Files below the minimum size (one byte unless configured)
/// are excluded entirely.
pub fn detect_dupes(options: Opt, files: &Vec<FileEntry>) -> (out: String)
    ensures
        out@ == spec_detect_dupes(files@, spec_effective_minimum(options.minimum)),
{
    let minimum = effective_minimum(options.minimum);
    let cands = initial_candidates(files);
    let s1 = cull_by_filesize(&cands, minimum);
    let prefixes = prefixes_for(&s1, files);
    let s2 = cull_by_start(&s1, &prefixes);
    let contents = contents_for(&s2, files);
    let s3 = cull_by_hash(&s2, &contents);
    proof {
        lemma_survivor_fields(files@, minimum);
        assert(all_have_keys(s3@));
    }
    format_results(&s3)
}

} // verus!
