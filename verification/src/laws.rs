//! Properties of the whole pipeline, proved over its specification: what a
//! reported duplicate group means, what never gets reported, and that the
//! report is a pure function of the snapshot.
use vstd::prelude::*;

use crate::candidate::CandidateFile;
use crate::cull::StageKey;
use crate::cull::distinct_paths;
use crate::cull::is_dupe_key;
use crate::cull::key_of;
use crate::cull::keys_of;
use crate::cull::lemma_cull_members;
use crate::cull::lemma_cull_pointwise;
use crate::cull::lemma_filter_distinct_paths;
use crate::cull::lemma_filter_all;
use crate::cull::lemma_filter_dupe_key;
use crate::cull::lemma_filter_members;
use crate::cull::spec_cull;
use crate::cull::survives;
use crate::cull::survivor_pred;
use crate::hashing::seahash_of;
use crate::pipeline::FileEntry;
use crate::pipeline::lemma_survivor_fields;
use crate::pipeline::spec_content_of;
use crate::pipeline::spec_contents_for;
use crate::pipeline::spec_detect_dupes;
use crate::pipeline::spec_detect_survivors;
use crate::pipeline::spec_initial_candidates;
use crate::pipeline::spec_prefixes_for;
use crate::report::same_group;
use crate::stages::min_size_pred;
use crate::stages::spec_hash_opt;
use crate::stages::spec_min_size_kept;
use crate::stages::spec_with_hash;
use crate::stages::spec_with_hashes;

verus! {

/// The snapshot's paths are pairwise distinct, as a real filesystem
/// snapshot's are.
pub open spec fn spec_distinct_file_paths(files: Seq<FileEntry>) -> bool {
    forall|j: int, k: int|
        #![trigger files[j], files[k]]
        0 <= j < k < files.len() ==> files[j].path@ != files[k].path@
}

/// The full-content hash tells apart every two distinct contents that occur
/// in the snapshot. Every property that speaks of content equality holds
/// under this hypothesis; a hash collision between two distinct snapshot
/// contents is the one case it excludes.
pub open spec fn spec_hash_injective_on(files: Seq<FileEntry>) -> bool {
    forall|j: int, k: int|
        #![trigger files[j], files[k]]
        0 <= j < files.len() && 0 <= k < files.len() && seahash_of(files[j].content@) == seahash_of(
            files[k].content@,
        ) ==> files[j].content@ == files[k].content@
}

/// A `Some` lookup result is the content of some snapshot entry with that
/// path.
proof fn lemma_content_of_member(files: Seq<FileEntry>, path: Seq<char>)
    ensures
        spec_content_of(files, path) is Some ==> exists|k: int|
            0 <= k < files.len() && (#[trigger] files[k]).path@ == path && files[k].content@
                == spec_content_of(files, path)->0,
    decreases files.len(),
{
    if files.len() == 0 {
    } else if files[0].path@ == path {
        assert(files[0].path@ == path && files[0].content@ == spec_content_of(files, path)->0);
    } else {
        lemma_content_of_member(files.drop_first(), path);
        if spec_content_of(files, path) is Some {
            let k = choose|k: int|
                0 <= k < files.drop_first().len() && (#[trigger] files.drop_first()[k]).path@
                    == path && files.drop_first()[k].content@ == spec_content_of(
                    files.drop_first(),
                    path,
                )->0;
            assert(files[k + 1].path@ == path && files[k + 1].content@ == spec_content_of(
                files,
                path,
            )->0);
        }
    }
}

/// With pairwise-distinct paths, looking up an entry's path finds exactly
/// that entry's content.
proof fn lemma_content_of_at(files: Seq<FileEntry>, t: int)
    requires
        spec_distinct_file_paths(files),
        0 <= t < files.len(),
    ensures
        spec_content_of(files, files[t].path@) == Some(files[t].content@),
    decreases t,
{
    if t == 0 {
    } else {
        assert(files[0].path@ != files[t].path@);
        assert forall|j: int, k: int|
            #![trigger files.drop_first()[j], files.drop_first()[k]]
            0 <= j < k < files.drop_first().len() implies files.drop_first()[j].path@
            != files.drop_first()[k].path@ by {
            assert(files.drop_first()[j] == files[j + 1]);
            assert(files.drop_first()[k] == files[k + 1]);
        }
        lemma_content_of_at(files.drop_first(), t - 1);
        assert(files.drop_first()[t - 1] == files[t]);
    }
}

/// Every confirmed duplicate's full hash is the hash of the content the
/// snapshot holds for its path.
pub proof fn lemma_survivor_hash_characterization(files: Seq<FileEntry>, minimum: u64)
    ensures
        forall|i: int|
            0 <= i < spec_detect_survivors(files, minimum).len() ==> {
                let c = #[trigger] spec_detect_survivors(files, minimum)[i];
                c.full_hash == spec_hash_opt(spec_content_of(files, c.path@))
            },
{
    let s0 = spec_initial_candidates(files);
    let kept = spec_min_size_kept(s0, minimum);
    let s1 = spec_cull(kept, StageKey::Size);
    let pre = spec_prefixes_for(s1, files);
    let h2 = spec_with_hashes(s1, pre, StageKey::Start);
    let s2 = spec_cull(h2, StageKey::Start);
    let con = spec_contents_for(s2, files);
    let h3 = spec_with_hashes(s2, con, StageKey::Full);
    let s3 = spec_cull(h3, StageKey::Full);
    assert(s3 == spec_detect_survivors(files, minimum));

    let prop = |c: CandidateFile| c.full_hash == spec_hash_opt(spec_content_of(files, c.path@));
    assert forall|j: int| 0 <= j < h3.len() implies prop(#[trigger] h3[j]) by {
        assert(h3[j] == spec_with_hash(s2[j], con[j], StageKey::Full));
        assert(con[j] == spec_content_of(files, s2[j].path@));
    }
    lemma_cull_pointwise(h3, StageKey::Full, prop);
}

/// `c` carries the path of some snapshot entry.
pub open spec fn spec_snapshot_path(files: Seq<FileEntry>, c: CandidateFile) -> bool {
    exists|j: int| 0 <= j < files.len() && (#[trigger] files[j]).path == c.path
}

/// Membership is monotonically non-increasing across the stages: every
/// reported duplicate carries the path of a snapshot entry, and nothing else
/// is ever reported.
pub proof fn lemma_reported_paths_from_snapshot(files: Seq<FileEntry>, minimum: u64)
    ensures
        forall|i: int|
            0 <= i < spec_detect_survivors(files, minimum).len() ==> spec_snapshot_path(
                files,
                #[trigger] spec_detect_survivors(files, minimum)[i],
            ),
{
    let s0 = spec_initial_candidates(files);
    let kept = spec_min_size_kept(s0, minimum);
    let s1 = spec_cull(kept, StageKey::Size);
    let pre = spec_prefixes_for(s1, files);
    let h2 = spec_with_hashes(s1, pre, StageKey::Start);
    let s2 = spec_cull(h2, StageKey::Start);
    let con = spec_contents_for(s2, files);
    let h3 = spec_with_hashes(s2, con, StageKey::Full);
    let s3 = spec_cull(h3, StageKey::Full);
    assert(s3 == spec_detect_survivors(files, minimum));

    let prop = |c: CandidateFile| spec_snapshot_path(files, c);
    assert forall|j: int| 0 <= j < s0.len() implies prop(#[trigger] s0[j]) by {
        assert(files[j].path == s0[j].path);
    }
    lemma_filter_members(s0, min_size_pred(minimum));
    assert forall|j: int| 0 <= j < kept.len() implies prop(#[trigger] kept[j]) by {
        assert(s0.contains(kept[j]));
        let m = choose|m: int| 0 <= m < s0.len() && s0[m] == kept[j];
        assert(prop(s0[m]));
    }
    lemma_cull_pointwise(kept, StageKey::Size, prop);
    assert forall|j: int| 0 <= j < h2.len() implies prop(#[trigger] h2[j]) by {
        assert(h2[j] == spec_with_hash(s1[j], pre[j], StageKey::Start));
        assert(h2[j].path == s1[j].path);
    }
    lemma_cull_pointwise(h2, StageKey::Start, prop);
    assert forall|j: int| 0 <= j < h3.len() implies prop(#[trigger] h3[j]) by {
        assert(h3[j] == spec_with_hash(s2[j], con[j], StageKey::Full));
        assert(h3[j].path == s2[j].path);
    }
    lemma_cull_pointwise(h3, StageKey::Full, prop);
}

/// Running the pipeline twice over an unchanged snapshot yields the same
/// report, byte for byte: the output is a function of the snapshot and the
/// minimum alone, and `detect_dupes` pins its result to that function.
pub proof fn lemma_detect_dupes_deterministic(
    files_then: Seq<FileEntry>,
    files_now: Seq<FileEntry>,
    minimum: u64,
)
    requires
        files_then == files_now,
    ensures
        spec_detect_dupes(files_then, minimum) == spec_detect_dupes(files_now, minimum),
{
}

/// An empty snapshot yields zero candidates and an empty report.
pub proof fn lemma_empty_input(minimum: u64)
    ensures
        spec_initial_candidates(Seq::<FileEntry>::empty()).len() == 0,
        spec_detect_survivors(Seq::<FileEntry>::empty(), minimum).len() == 0,
        spec_detect_dupes(Seq::<FileEntry>::empty(), minimum) == Seq::<char>::empty(),
{
    broadcast use vstd::seq_lib::group_filter_ensures;

    let files = Seq::<FileEntry>::empty();
    let s0 = spec_initial_candidates(files);
    let kept = spec_min_size_kept(s0, minimum);
    let s1 = spec_cull(kept, StageKey::Size);
    assert(s1.len() == 0);
    let pre = spec_prefixes_for(s1, files);
    let h2 = spec_with_hashes(s1, pre, StageKey::Start);
    let s2 = spec_cull(h2, StageKey::Start);
    assert(s2.len() == 0);
    let con = spec_contents_for(s2, files);
    let h3 = spec_with_hashes(s2, con, StageKey::Full);
    let s3 = spec_cull(h3, StageKey::Full);
    assert(s3.len() == 0);
    assert(s3 == spec_detect_survivors(files, minimum));
}

/// A single file has no sibling to match: the report is empty.
pub proof fn lemma_single_file(files: Seq<FileEntry>, minimum: u64)
    requires
        files.len() <= 1,
    ensures
        spec_detect_survivors(files, minimum).len() == 0,
        spec_detect_dupes(files, minimum) == Seq::<char>::empty(),
{
    broadcast use vstd::seq_lib::group_filter_ensures;

    let s0 = spec_initial_candidates(files);
    let kept = spec_min_size_kept(s0, minimum);
    assert(kept.len() <= 1);
    let s1 = spec_cull(kept, StageKey::Size);
    lemma_cull_members(kept, StageKey::Size);
    if s1.len() > 0 {
        assert(survives(kept, StageKey::Size, s1[0]));
        let v = key_of(s1[0], StageKey::Size)->0;
        let (x, y): (int, int) = choose|x: int, y: int|
            0 <= x < y < keys_of(kept, StageKey::Size).len()
            && #[trigger] keys_of(kept, StageKey::Size)[x] == Some(v)
            && #[trigger] keys_of(kept, StageKey::Size)[y] == Some(v);
        assert(false);
    }
    let pre = spec_prefixes_for(s1, files);
    let h2 = spec_with_hashes(s1, pre, StageKey::Start);
    let s2 = spec_cull(h2, StageKey::Start);
    assert(s2.len() == 0);
    let con = spec_contents_for(s2, files);
    let h3 = spec_with_hashes(s2, con, StageKey::Full);
    let s3 = spec_cull(h3, StageKey::Full);
    assert(s3.len() == 0);
    assert(s3 == spec_detect_survivors(files, minimum));
}

/// Every two members of one reported duplicate group have identical full-file
/// content, whenever the hash tells apart the distinct contents of the
/// snapshot. Without that hypothesis two files of different content could
/// share a full hash and be grouped; the pipeline accepts that residual risk
/// by design.
pub proof fn lemma_group_members_share_content(
    files: Seq<FileEntry>,
    minimum: u64,
    a: int,
    b: int,
)
    requires
        spec_hash_injective_on(files),
        0 <= a < spec_detect_survivors(files, minimum).len(),
        0 <= b < spec_detect_survivors(files, minimum).len(),
        same_group(
            spec_detect_survivors(files, minimum)[a],
            spec_detect_survivors(files, minimum)[b],
        ),
    ensures
        spec_content_of(files, spec_detect_survivors(files, minimum)[a].path@) is Some,
        spec_content_of(files, spec_detect_survivors(files, minimum)[a].path@) == spec_content_of(
            files,
            spec_detect_survivors(files, minimum)[b].path@,
        ),
{
    let surv = spec_detect_survivors(files, minimum);
    lemma_survivor_fields(files, minimum);
    lemma_survivor_hash_characterization(files, minimum);
    let ca = surv[a];
    let cb = surv[b];
    let la = spec_content_of(files, ca.path@);
    let lb = spec_content_of(files, cb.path@);
    assert(ca.full_hash == spec_hash_opt(la));
    assert(cb.full_hash == spec_hash_opt(lb));
    assert(la is Some && lb is Some);
    assert(seahash_of(la->0) == seahash_of(lb->0));
    lemma_content_of_member(files, ca.path@);
    lemma_content_of_member(files, cb.path@);
    let k = choose|k: int|
        0 <= k < files.len() && (#[trigger] files[k]).path@ == ca.path@ && files[k].content@
            == spec_content_of(files, ca.path@)->0;
    let l = choose|l: int|
        0 <= l < files.len() && (#[trigger] files[l]).path@ == cb.path@ && files[l].content@
            == spec_content_of(files, cb.path@)->0;
    assert(files[k].content@ == files[l].content@);
}

/// A file whose byte length no other snapshot file shares never appears among
/// the reported duplicates: the size cull is monotone and culling never
/// invents a shared key.
pub proof fn lemma_unique_size_not_reported(files: Seq<FileEntry>, minimum: u64, t: int)
    requires
        0 <= t < files.len(),
        forall|j: int|
            #![trigger files[j]]
            0 <= j < files.len() ==> files[j].content@.len() <= u64::MAX,
        forall|j: int|
            #![trigger files[j]]
            0 <= j < files.len() && j != t ==> files[j].content@.len()
                != files[t].content@.len(),
    ensures
        forall|i: int|
            0 <= i < spec_detect_survivors(files, minimum).len()
                ==> (#[trigger] spec_detect_survivors(files, minimum)[i]).size != Some(
                (files[t].content@.len() as u64),
            ),
{
    let s0 = spec_initial_candidates(files);
    let kept = spec_min_size_kept(s0, minimum);
    let s1 = spec_cull(kept, StageKey::Size);
    let pre = spec_prefixes_for(s1, files);
    let h2 = spec_with_hashes(s1, pre, StageKey::Start);
    let s2 = spec_cull(h2, StageKey::Start);
    let con = spec_contents_for(s2, files);
    let h3 = spec_with_hashes(s2, con, StageKey::Full);
    let s3 = spec_cull(h3, StageKey::Full);
    assert(s3 == spec_detect_survivors(files, minimum));

    let lt = files[t].content@.len() as u64;
    let pl = |c: CandidateFile| c.size != Some(lt);

    lemma_cull_members(kept, StageKey::Size);
    assert forall|i: int| 0 <= i < s1.len() implies pl(#[trigger] s1[i]) by {
        assert(survives(kept, StageKey::Size, s1[i]));
        if s1[i].size == Some(lt) {
            assert(is_dupe_key(keys_of(kept, StageKey::Size), lt));
            lemma_filter_dupe_key(s0, min_size_pred(minimum), StageKey::Size, lt);
            let (x, y): (int, int) = choose|x: int, y: int|
                0 <= x < y < keys_of(s0, StageKey::Size).len()
                && #[trigger] keys_of(s0, StageKey::Size)[x] == Some(lt)
                && #[trigger] keys_of(s0, StageKey::Size)[y] == Some(lt);
            assert(s0[x].size == Some((files[x].content@.len() as u64)));
            assert(s0[y].size == Some((files[y].content@.len() as u64)));
            assert(files[x].content@.len() == files[t].content@.len());
            assert(files[y].content@.len() == files[t].content@.len());
            if x != t {
                assert(files[x].content@.len() != files[t].content@.len());
            }
            if y != t {
                assert(files[y].content@.len() != files[t].content@.len());
            }
            assert(false);
        }
    }
    assert forall|j: int| 0 <= j < h2.len() implies pl(#[trigger] h2[j]) by {
        assert(h2[j] == spec_with_hash(s1[j], pre[j], StageKey::Start));
    }
    lemma_cull_pointwise(h2, StageKey::Start, pl);
    assert forall|j: int| 0 <= j < h3.len() implies pl(#[trigger] h3[j]) by {
        assert(h3[j] == spec_with_hash(s2[j], con[j], StageKey::Full));
    }
    lemma_cull_pointwise(h3, StageKey::Full, pl);
}

/// A file whose content no other snapshot file shares never appears among
/// the reported duplicates, even when another file matches its size: the
/// size cull is a pre-filter, not a verdict. Holds for snapshots with
/// pairwise-distinct paths on which the hash tells distinct contents apart.
pub proof fn lemma_unique_content_not_reported(files: Seq<FileEntry>, minimum: u64, t: int)
    requires
        spec_hash_injective_on(files),
        spec_distinct_file_paths(files),
        0 <= t < files.len(),
        forall|j: int|
            #![trigger files[j]]
            0 <= j < files.len() && j != t ==> files[j].content@ != files[t].content@,
    ensures
        forall|i: int|
            0 <= i < spec_detect_survivors(files, minimum).len()
                ==> (#[trigger] spec_detect_survivors(files, minimum)[i]).path@ != files[t].path@,
{
    let s0 = spec_initial_candidates(files);
    let kept = spec_min_size_kept(s0, minimum);
    let s1 = spec_cull(kept, StageKey::Size);
    let pre = spec_prefixes_for(s1, files);
    let h2 = spec_with_hashes(s1, pre, StageKey::Start);
    let s2 = spec_cull(h2, StageKey::Start);
    let con = spec_contents_for(s2, files);
    let h3 = spec_with_hashes(s2, con, StageKey::Full);
    let s3 = spec_cull(h3, StageKey::Full);
    assert(s3 == spec_detect_survivors(files, minimum));

    assert forall|i: int, j: int|
        #![trigger s0[i], s0[j]]
        0 <= i < j < s0.len() implies s0[i].path@ != s0[j].path@ by {
        assert(s0[i].path == files[i].path && s0[j].path == files[j].path);
    }
    lemma_filter_distinct_paths(s0, min_size_pred(minimum));
    lemma_filter_distinct_paths(kept, survivor_pred(kept, StageKey::Size));
    assert forall|i: int, j: int|
        #![trigger h2[i], h2[j]]
        0 <= i < j < h2.len() implies h2[i].path@ != h2[j].path@ by {
        assert(h2[i] == spec_with_hash(s1[i], pre[i], StageKey::Start));
        assert(h2[j] == spec_with_hash(s1[j], pre[j], StageKey::Start));
    }
    lemma_filter_distinct_paths(h2, survivor_pred(h2, StageKey::Start));
    assert forall|i: int, j: int|
        #![trigger h3[i], h3[j]]
        0 <= i < j < h3.len() implies h3[i].path@ != h3[j].path@ by {
        assert(h3[i] == spec_with_hash(s2[i], con[i], StageKey::Full));
        assert(h3[j] == spec_with_hash(s2[j], con[j], StageKey::Full));
    }
    assert(distinct_paths(h3));

    lemma_cull_members(h3, StageKey::Full);
    lemma_content_of_at(files, t);
    let vt = seahash_of(files[t].content@);
    assert forall|i: int|
        0 <= i < s3.len() implies (#[trigger] s3[i]).path@ != files[t].path@ by {
        if s3[i].path@ == files[t].path@ {
            lemma_survivor_hash_characterization(files, minimum);
            assert(s3[i].full_hash == spec_hash_opt(spec_content_of(files, s3[i].path@)));
            assert(s3[i].full_hash == Some(vt));
            assert(survives(h3, StageKey::Full, s3[i]));
            assert(is_dupe_key(keys_of(h3, StageKey::Full), vt));
            let (x, y): (int, int) = choose|x: int, y: int|
                0 <= x < y < keys_of(h3, StageKey::Full).len()
                && #[trigger] keys_of(h3, StageKey::Full)[x] == Some(vt)
                && #[trigger] keys_of(h3, StageKey::Full)[y] == Some(vt);
            assert(h3[x] == spec_with_hash(s2[x], con[x], StageKey::Full));
            assert(h3[y] == spec_with_hash(s2[y], con[y], StageKey::Full));
            let lx = spec_content_of(files, h3[x].path@);
            let ly = spec_content_of(files, h3[y].path@);
            assert(lx is Some && seahash_of(lx->0) == vt);
            assert(ly is Some && seahash_of(ly->0) == vt);
            lemma_content_of_member(files, h3[x].path@);
            lemma_content_of_member(files, h3[y].path@);
            let kx = choose|k: int|
                0 <= k < files.len() && (#[trigger] files[k]).path@ == h3[x].path@
                    && files[k].content@ == spec_content_of(files, h3[x].path@)->0;
            let ky = choose|k: int|
                0 <= k < files.len() && (#[trigger] files[k]).path@ == h3[y].path@
                    && files[k].content@ == spec_content_of(files, h3[y].path@)->0;
            assert(files[kx].content@ == files[t].content@);
            assert(files[ky].content@ == files[t].content@);
            if kx != t {
                assert(files[kx].content@ != files[t].content@);
            }
            if ky != t {
                assert(files[ky].content@ != files[t].content@);
            }
            assert(h3[x].path@ == files[t].path@ && h3[y].path@ == files[t].path@);
            assert(false);
        }
    }
}


/// Two pairwise-identical pairs of distinct content, both above the minimum:
/// every file is reported, each pair shares one full-content hash, and the
/// two pairs' hashes differ — exactly two duplicate groups, each of exactly
/// two members. Holds for snapshots with pairwise-distinct paths on which the
/// hash tells distinct contents apart.
pub proof fn lemma_two_pairs_two_groups(files: Seq<FileEntry>, minimum: u64)
    requires
        spec_hash_injective_on(files),
        spec_distinct_file_paths(files),
        files.len() == 4,
        files[0].content@ == files[1].content@,
        files[2].content@ == files[3].content@,
        files[0].content@ != files[2].content@,
        files[0].content@.len() <= u64::MAX,
        files[2].content@.len() <= u64::MAX,
        minimum <= files[0].content@.len(),
        minimum <= files[2].content@.len(),
    ensures
        ({
            let surv = spec_detect_survivors(files, minimum);
            &&& surv.len() == 4
            &&& forall|i: int| 0 <= i < 4 ==> (#[trigger] surv[i]).path == files[i].path
            &&& surv[0].full_hash is Some
            &&& surv[2].full_hash is Some
            &&& surv[0].full_hash == surv[1].full_hash
            &&& surv[2].full_hash == surv[3].full_hash
            &&& surv[0].full_hash != surv[2].full_hash
        }),
{
    let s0 = spec_initial_candidates(files);
    let la = files[0].content@.len() as u64;
    let lb = files[2].content@.len() as u64;
    assert(s0.len() == 4);
    assert(s0[0].size == Some(la) && s0[1].size == Some(la));
    assert(s0[2].size == Some(lb) && s0[3].size == Some(lb));

    // The minimum-size filter keeps all four.
    let mp = min_size_pred(minimum);
    assert forall|i: int| 0 <= i < s0.len() implies mp(#[trigger] s0[i]) by {
        if i < 2 {
            assert(s0[i].size == Some(la));
        } else {
            assert(s0[i].size == Some(lb));
        }
    }
    lemma_filter_all(s0, mp);
    let kept = spec_min_size_kept(s0, minimum);
    assert(kept == s0);

    // Each file's size is shared with its pair: the size cull keeps all four.
    let ks = keys_of(kept, StageKey::Size);
    assert(ks[0] == Some(la) && ks[1] == Some(la) && ks[2] == Some(lb) && ks[3] == Some(lb));
    assert(is_dupe_key(ks, la));
    assert(is_dupe_key(ks, lb));
    let sp1 = survivor_pred(kept, StageKey::Size);
    assert forall|i: int| 0 <= i < kept.len() implies sp1(#[trigger] kept[i]) by {
        if i < 2 {
            assert(key_of(kept[i], StageKey::Size) == Some(la));
        } else {
            assert(key_of(kept[i], StageKey::Size) == Some(lb));
        }
    }
    lemma_filter_all(kept, sp1);
    let s1 = spec_cull(kept, StageKey::Size);
    assert(s1 == kept);

    // Identical contents give identical prefixes, so each file's prefix hash
    // is shared with its pair: the prefix-hash cull keeps all four.
    lemma_content_of_at(files, 0);
    lemma_content_of_at(files, 1);
    lemma_content_of_at(files, 2);
    lemma_content_of_at(files, 3);
    let pre = spec_prefixes_for(s1, files);
    assert(s1[0].path == files[0].path && s1[1].path == files[1].path);
    assert(s1[2].path == files[2].path && s1[3].path == files[3].path);
    let pa = seahash_of(crate::hashing::spec_prefix(files[0].content@));
    let pb = seahash_of(crate::hashing::spec_prefix(files[2].content@));
    let h2 = spec_with_hashes(s1, pre, StageKey::Start);
    assert(h2[0] == spec_with_hash(s1[0], pre[0], StageKey::Start));
    assert(h2[1] == spec_with_hash(s1[1], pre[1], StageKey::Start));
    assert(h2[2] == spec_with_hash(s1[2], pre[2], StageKey::Start));
    assert(h2[3] == spec_with_hash(s1[3], pre[3], StageKey::Start));
    assert(h2[0].start_hash == Some(pa) && h2[1].start_hash == Some(pa));
    assert(h2[2].start_hash == Some(pb) && h2[3].start_hash == Some(pb));
    let k2 = keys_of(h2, StageKey::Start);
    assert(k2[0] == Some(pa) && k2[1] == Some(pa) && k2[2] == Some(pb) && k2[3] == Some(pb));
    assert(is_dupe_key(k2, pa));
    assert(is_dupe_key(k2, pb));
    let sp2 = survivor_pred(h2, StageKey::Start);
    assert forall|i: int| 0 <= i < h2.len() implies sp2(#[trigger] h2[i]) by {
        if i < 2 {
            assert(key_of(h2[i], StageKey::Start) == Some(pa));
        } else {
            assert(key_of(h2[i], StageKey::Start) == Some(pb));
        }
    }
    lemma_filter_all(h2, sp2);
    let s2 = spec_cull(h2, StageKey::Start);
    assert(s2 == h2);

    // Identical contents give identical full hashes, and the hash tells the
    // two distinct contents apart: the full-hash cull keeps all four, in two
    // groups.
    let con = spec_contents_for(s2, files);
    assert(s2[0].path == files[0].path && s2[1].path == files[1].path);
    assert(s2[2].path == files[2].path && s2[3].path == files[3].path);
    let va = seahash_of(files[0].content@);
    let vb = seahash_of(files[2].content@);
    let h3 = spec_with_hashes(s2, con, StageKey::Full);
    assert(h3[0] == spec_with_hash(s2[0], con[0], StageKey::Full));
    assert(h3[1] == spec_with_hash(s2[1], con[1], StageKey::Full));
    assert(h3[2] == spec_with_hash(s2[2], con[2], StageKey::Full));
    assert(h3[3] == spec_with_hash(s2[3], con[3], StageKey::Full));
    assert(h3[0].full_hash == Some(va) && h3[1].full_hash == Some(va));
    assert(h3[2].full_hash == Some(vb) && h3[3].full_hash == Some(vb));
    let k3 = keys_of(h3, StageKey::Full);
    assert(k3[0] == Some(va) && k3[1] == Some(va) && k3[2] == Some(vb) && k3[3] == Some(vb));
    assert(is_dupe_key(k3, va));
    assert(is_dupe_key(k3, vb));
    let sp3 = survivor_pred(h3, StageKey::Full);
    assert forall|i: int| 0 <= i < h3.len() implies sp3(#[trigger] h3[i]) by {
        if i < 2 {
            assert(key_of(h3[i], StageKey::Full) == Some(va));
        } else {
            assert(key_of(h3[i], StageKey::Full) == Some(vb));
        }
    }
    lemma_filter_all(h3, sp3);
    let s3 = spec_cull(h3, StageKey::Full);
    assert(s3 == h3);
    assert(s3 == spec_detect_survivors(files, minimum));

    if va == vb {
        assert(files[0].content@ == files[2].content@);
    }
    assert(va != vb);
    assert forall|i: int| 0 <= i < 4 implies (#[trigger] s3[i]).path == files[i].path by {
        assert(h3[i].path == s2[i].path);
    }
}

/// The two-pairs scenario with the minimum set between the pairs' sizes:
/// only the larger pair is reported — one group of exactly two members — and
/// the smaller pair is absent entirely.
pub proof fn lemma_two_pairs_minimum(files: Seq<FileEntry>, minimum: u64)
    requires
        spec_distinct_file_paths(files),
        files.len() == 4,
        files[0].content@ == files[1].content@,
        files[2].content@ == files[3].content@,
        files[0].content@.len() < minimum,
        minimum <= files[2].content@.len(),
        files[2].content@.len() <= u64::MAX,
    ensures
        ({
            let surv = spec_detect_survivors(files, minimum);
            &&& surv.len() == 2
            &&& surv[0].path == files[2].path
            &&& surv[1].path == files[3].path
            &&& surv[0].full_hash is Some
            &&& surv[0].full_hash == surv[1].full_hash
        }),
{
    broadcast use vstd::seq_lib::group_filter_ensures;

    let s0 = spec_initial_candidates(files);
    let la = files[0].content@.len() as u64;
    let lb = files[2].content@.len() as u64;
    assert(s0.len() == 4);
    assert(s0[0].size == Some(la) && s0[1].size == Some(la));
    assert(s0[2].size == Some(lb) && s0[3].size == Some(lb));

    // The minimum-size filter drops the small pair and keeps the large one.
    let mp = min_size_pred(minimum);
    let e1 = s0.drop_last();
    let e2 = e1.drop_last();
    let e3 = e2.drop_last();
    let e4 = e3.drop_last();
    reveal(Seq::filter);
    assert(e4.len() == 0);
    assert(e4.filter(mp) =~= Seq::<CandidateFile>::empty());
    assert(e3.last() == s0[0] && !mp(s0[0]));
    assert(e3.filter(mp) =~= Seq::<CandidateFile>::empty());
    assert(e2.last() == s0[1] && !mp(s0[1]));
    assert(e2.filter(mp) =~= Seq::<CandidateFile>::empty());
    assert(e1.last() == s0[2] && mp(s0[2]));
    assert(e1.filter(mp) =~= seq![s0[2]]);
    assert(s0.last() == s0[3] && mp(s0[3]));
    assert(s0.filter(mp) =~= seq![s0[2], s0[3]]);
    let kept = spec_min_size_kept(s0, minimum);
    assert(kept == seq![s0[2], s0[3]]);

    // The pair shares its size: the size cull keeps both.
    let ks = keys_of(kept, StageKey::Size);
    assert(ks[0] == Some(lb) && ks[1] == Some(lb));
    assert(is_dupe_key(ks, lb));
    let sp1 = survivor_pred(kept, StageKey::Size);
    assert forall|i: int| 0 <= i < kept.len() implies sp1(#[trigger] kept[i]) by {
        assert(key_of(kept[i], StageKey::Size) == Some(lb));
    }
    lemma_filter_all(kept, sp1);
    let s1 = spec_cull(kept, StageKey::Size);
    assert(s1 == kept);

    // Identical contents share the prefix hash: the prefix cull keeps both.
    lemma_content_of_at(files, 2);
    lemma_content_of_at(files, 3);
    let pre = spec_prefixes_for(s1, files);
    assert(s1[0].path == files[2].path && s1[1].path == files[3].path);
    let pb = seahash_of(crate::hashing::spec_prefix(files[2].content@));
    let h2 = spec_with_hashes(s1, pre, StageKey::Start);
    assert(h2[0] == spec_with_hash(s1[0], pre[0], StageKey::Start));
    assert(h2[1] == spec_with_hash(s1[1], pre[1], StageKey::Start));
    assert(h2[0].start_hash == Some(pb) && h2[1].start_hash == Some(pb));
    let k2 = keys_of(h2, StageKey::Start);
    assert(k2[0] == Some(pb) && k2[1] == Some(pb));
    assert(is_dupe_key(k2, pb));
    let sp2 = survivor_pred(h2, StageKey::Start);
    assert forall|i: int| 0 <= i < h2.len() implies sp2(#[trigger] h2[i]) by {
        assert(key_of(h2[i], StageKey::Start) == Some(pb));
    }
    lemma_filter_all(h2, sp2);
    let s2 = spec_cull(h2, StageKey::Start);
    assert(s2 == h2);

    // Identical contents share the full hash: the full-hash cull keeps both.
    let con = spec_contents_for(s2, files);
    assert(s2[0].path == files[2].path && s2[1].path == files[3].path);
    let vb = seahash_of(files[2].content@);
    let h3 = spec_with_hashes(s2, con, StageKey::Full);
    assert(h3[0] == spec_with_hash(s2[0], con[0], StageKey::Full));
    assert(h3[1] == spec_with_hash(s2[1], con[1], StageKey::Full));
    assert(h3[0].full_hash == Some(vb) && h3[1].full_hash == Some(vb));
    let k3 = keys_of(h3, StageKey::Full);
    assert(k3[0] == Some(vb) && k3[1] == Some(vb));
    assert(is_dupe_key(k3, vb));
    let sp3 = survivor_pred(h3, StageKey::Full);
    assert forall|i: int| 0 <= i < h3.len() implies sp3(#[trigger] h3[i]) by {
        assert(key_of(h3[i], StageKey::Full) == Some(vb));
    }
    lemma_filter_all(h3, sp3);
    let s3 = spec_cull(h3, StageKey::Full);
    assert(s3 == h3);
    assert(s3 == spec_detect_survivors(files, minimum));
    assert(s3[0].path == files[2].path);
    assert(s3[1].path == files[3].path);
}

} // verus!
