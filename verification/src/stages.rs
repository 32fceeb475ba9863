//! The three culling stages of the pipeline, cheapest first: by file size, by
//! a hash of a bounded content prefix, and by a hash of the full content.
//!
//! Each stage receives the previous stage's survivors together with the data
//! the caller obtained for them (a size, prefix bytes, full bytes; `None`
//! where the file could not be read), and returns the members whose stage key
//! is shared with at least one other member — so membership never grows from
//! one stage to the next.
use vstd::prelude::*;

use crate::candidate::CandidateFile;
use crate::cull::StageKey;
use crate::cull::cull_dupes;
use crate::cull::spec_cull;
use crate::hashing::hash_bytes;
use crate::hashing::seahash_of;

verus! {

pub open spec fn min_size_pred(minimum: u64) -> spec_fn(CandidateFile) -> bool {
    |c: CandidateFile| c.size is Some && c.size->0 >= minimum
}

/// The candidates whose size is known and not below `minimum`.
pub open spec fn spec_min_size_kept(s: Seq<CandidateFile>, minimum: u64) -> Seq<CandidateFile> {
    s.filter(min_size_pred(minimum))
}

/// Size cull: drop files without a known size or below `minimum`, then keep
/// exactly those whose size is shared with another file that also passed the
/// filter.
pub open spec fn spec_cull_by_filesize(s: Seq<CandidateFile>, minimum: u64) -> Seq<CandidateFile> {
    spec_cull(spec_min_size_kept(s, minimum), StageKey::Size)
}

/// First stage: cull by file size. `input` carries each file's byte length in
/// `size` (`None` where the metadata could not be read; such files are
/// dropped). Files smaller than `minimum` are excluded even if they would
/// otherwise match.
pub fn cull_by_filesize(input: &Vec<CandidateFile>, minimum: u64) -> (out: Vec<CandidateFile>)
    ensures
        out@ == spec_cull_by_filesize(input@, minimum),
{
    let ghost pred = min_size_pred(minimum);
    let n = input.len();
    let mut kept: Vec<CandidateFile> = Vec::new();
    let mut i: usize = 0;
    while i < n
        invariant
            n == input@.len(),
            i <= n,
            pred == min_size_pred(minimum),
            kept@ == input@.take(i as int).filter(pred),
        decreases n - i,
    {
        let c = &input[i];
        let mut keep = false;
        match c.size {
            Some(sz) => {
                if sz >= minimum {
                    keep = true;
                }
            },
            None => {},
        }
        if keep {
            kept.push(c.clone());
        }
        proof {
            reveal(Seq::filter);
            assert(input@.take(i + 1).drop_last() =~= input@.take(i as int));
            assert(input@.take(i + 1).last() == input@[i as int]);
            assert(pred(input@[i as int]) == keep);
        }
        i = i + 1;
    }
    proof {
        assert(input@.take(n as int) =~= input@);
    }
    cull_dupes(&kept, StageKey::Size)
}

/// Every file the minimum-size filter keeps is a member of its input and has
/// a known size not below `minimum`.
pub proof fn lemma_min_size_members(s: Seq<CandidateFile>, minimum: u64)
    ensures
        forall|i: int|
            0 <= i < spec_min_size_kept(s, minimum).len() ==> {
                let c = #[trigger] spec_min_size_kept(s, minimum)[i];
                c.size is Some && c.size->0 >= minimum
            },
        forall|i: int|
            0 <= i < spec_min_size_kept(s, minimum).len() ==> s.contains(
                #[trigger] spec_min_size_kept(s, minimum)[i],
            ),
{
    broadcast use vstd::seq_lib::group_filter_ensures;

    let pred = min_size_pred(minimum);
    crate::cull::lemma_filter_members(s, pred);
    assert forall|i: int|
        0 <= i < spec_min_size_kept(s, minimum).len() implies {
        let c = #[trigger] spec_min_size_kept(s, minimum)[i];
        c.size is Some && c.size->0 >= minimum
    } by {
        assert(pred(s.filter(pred)[i]));
    }
}

/// The hash a stage records for one file's data: `None` where the data could
/// not be read.
pub open spec fn spec_hash_opt(d: Option<Seq<u8>>) -> Option<u64> {
    match d {
        Some(bytes) => Some(seahash_of(bytes)),
        None => None,
    }
}

/// One candidate with the hash of `d` recorded in the field that `k` selects.
pub open spec fn spec_with_hash(c: CandidateFile, d: Option<Seq<u8>>, k: StageKey) -> CandidateFile {
    match k {
        StageKey::Size => c,
        StageKey::Start => CandidateFile { start_hash: spec_hash_opt(d), ..c },
        StageKey::Full => CandidateFile { full_hash: spec_hash_opt(d), ..c },
    }
}

/// The candidates of `s` with the hash of their data recorded, positionally.
pub open spec fn spec_with_hashes(
    s: Seq<CandidateFile>,
    data: Seq<Option<Seq<u8>>>,
    k: StageKey,
) -> Seq<CandidateFile> {
    Seq::new(s.len(), |i: int| spec_with_hash(s[i], data[i], k))
}

/// Record in each candidate the hash of its data, in the field `k` selects.
fn assign_hashes(input: &Vec<CandidateFile>, data: &Vec<Option<Vec<u8>>>, k: StageKey) -> (out: Vec<
    CandidateFile,
>)
    requires
        input@.len() == data@.len(),
    ensures
        out@ == spec_with_hashes(input@, data.deep_view(), k),
{
    let ghost target = spec_with_hashes(input@, data.deep_view(), k);
    let n = input.len();
    let mut out: Vec<CandidateFile> = Vec::new();
    let mut i: usize = 0;
    while i < n
        invariant
            n == input@.len(),
            input@.len() == data@.len(),
            i <= n,
            target == spec_with_hashes(input@, data.deep_view(), k),
            out@ == target.take(i as int),
        decreases n - i,
    {
        let mut c = input[i].clone();
        let hv: Option<u64> = match &data[i] {
            Some(d) => {
                proof {
                    assert(d@ =~= (data@[i as int]->0).deep_view());
                }
                Some(hash_bytes(d))
            },
            None => None,
        };
        match k {
            StageKey::Size => {},
            StageKey::Start => {
                c.start_hash = hv;
            },
            StageKey::Full => {
                c.full_hash = hv;
            },
        }
        proof {
            assert(data.deep_view()[i as int] == data@[i as int].deep_view());
            assert(hv == spec_hash_opt(data.deep_view()[i as int]));
            assert(c == target[i as int]);
            assert(target.take(i + 1) =~= target.take(i as int).push(target[i as int]));
        }
        out.push(c);
        i = i + 1;
    }
    proof {
        assert(target.take(n as int) =~= target);
    }
    out
}

/// Prefix-hash cull: key each survivor on the hash of its bounded content
/// prefix and keep exactly those whose prefix hash is shared.
pub open spec fn spec_cull_by_start(
    s: Seq<CandidateFile>,
    prefixes: Seq<Option<Seq<u8>>>,
) -> Seq<CandidateFile> {
    spec_cull(spec_with_hashes(s, prefixes, StageKey::Start), StageKey::Start)
}

/// Second stage: cull by a hash of each file's content prefix. `prefixes`
/// pairs with `input` positionally and holds the first bytes read of each
/// file (`None` where the read failed; such files are dropped).
pub fn cull_by_start(input: &Vec<CandidateFile>, prefixes: &Vec<Option<Vec<u8>>>) -> (out: Vec<
    CandidateFile,
>)
    requires
        input@.len() == prefixes@.len(),
    ensures
        out@ == spec_cull_by_start(input@, prefixes.deep_view()),
{
    let hashed = assign_hashes(input, prefixes, StageKey::Start);
    cull_dupes(&hashed, StageKey::Start)
}

/// Full-hash cull: key each survivor on the hash of its entire content and
/// keep exactly those whose full hash is shared — the confirmed duplicates.
pub open spec fn spec_cull_by_hash(
    s: Seq<CandidateFile>,
    contents: Seq<Option<Seq<u8>>>,
) -> Seq<CandidateFile> {
    spec_cull(spec_with_hashes(s, contents, StageKey::Full), StageKey::Full)
}

/// Third stage: cull by a hash of each file's whole content. `contents` pairs
/// with `input` positionally (`None` where the read failed; such files are
/// dropped). The output is the pipeline's authoritative duplicate set.
pub fn cull_by_hash(input: &Vec<CandidateFile>, contents: &Vec<Option<Vec<u8>>>) -> (out: Vec<
    CandidateFile,
>)
    requires
        input@.len() == contents@.len(),
    ensures
        out@ == spec_cull_by_hash(input@, contents.deep_view()),
{
    let hashed = assign_hashes(input, contents, StageKey::Full);
    cull_dupes(&hashed, StageKey::Full)
}

} // verus!
