//! Culling: narrowing a candidate set to the members whose stage key (size,
//! prefix hash, or full hash) is shared with at least one other member.
use vstd::prelude::*;

use crate::candidate::CandidateFile;

use std::collections::HashSet;

verus! {

broadcast use vstd::std_specs::hash::group_hash_axioms;

/// Which metadata field keys a culling stage.
#[derive(Clone, Copy, PartialEq, Eq, Structural)]
pub enum StageKey {
    Size,
    Start,
    Full,
}

/// The stage key of one candidate: `None` when the stage could not obtain it.
pub open spec fn key_of(c: CandidateFile, k: StageKey) -> Option<u64> {
    match k {
        StageKey::Size => c.size,
        StageKey::Start => c.start_hash,
        StageKey::Full => c.full_hash,
    }
}

/// The stage keys of a whole candidate sequence, in order.
pub open spec fn keys_of(s: Seq<CandidateFile>, k: StageKey) -> Seq<Option<u64>> {
    s.map_values(|c: CandidateFile| key_of(c, k))
}

/// `v` is the key of at least two positions of `keys`.
pub open spec fn is_dupe_key(keys: Seq<Option<u64>>, v: u64) -> bool {
    exists|i: int, j: int|
        0 <= i < j < keys.len() && keys[i] == Some(v) && keys[j] == Some(v)
}

/// A candidate survives a cull over `s` when its key is known and shared.
pub open spec fn survives(s: Seq<CandidateFile>, k: StageKey, c: CandidateFile) -> bool {
    &&& key_of(c, k) is Some
    &&& is_dupe_key(keys_of(s, k), key_of(c, k)->0)
}

pub open spec fn survivor_pred(s: Seq<CandidateFile>, k: StageKey) -> spec_fn(CandidateFile) -> bool {
    |c: CandidateFile| survives(s, k, c)
}

/// What a culling stage returns: the members of `s`, in order, whose key is
/// known and shared with at least one other member of `s`.
pub open spec fn spec_cull(s: Seq<CandidateFile>, k: StageKey) -> Seq<CandidateFile> {
    s.filter(survivor_pred(s, k))
}

/// The stage key of `c`, read off the field that `k` selects.
fn key_value(c: &CandidateFile, k: StageKey) -> (v: Option<u64>)
    ensures
        v == key_of(*c, k),
{
    match k {
        StageKey::Size => c.size,
        StageKey::Start => c.start_hash,
        StageKey::Full => c.full_hash,
    }
}

/// One culling pass: keep exactly the candidates whose stage key is shared
/// with another member of `input`, preserving their order. A single pass over
/// a key-to-seen set replaces any pairwise comparison.
pub fn cull_dupes(input: &Vec<CandidateFile>, k: StageKey) -> (out: Vec<CandidateFile>)
    ensures
        out@ == spec_cull(input@, k),
{
    let n = input.len();
    let ghost keys = keys_of(input@, k);

    let mut seen: HashSet<u64> = HashSet::new();
    let mut dupes: HashSet<u64> = HashSet::new();
    let mut i: usize = 0;
    while i < n
        invariant
            n == input@.len(),
            keys == keys_of(input@, k),
            i <= n,
            forall|v: u64| #[trigger] seen@.contains(v)
                <==> exists|j: int| 0 <= j < i && keys[j] == Some(v),
            forall|v: u64| #[trigger] dupes@.contains(v)
                <==> is_dupe_key(keys.take(i as int), v),
        decreases n - i,
    {
        let kv = key_value(&input[i], k);
        assert(keys[i as int] == kv);
        match kv {
            Some(v) => {
                if seen.contains(&v) {
                    dupes.insert(v);
                } else {
                    seen.insert(v);
                }
            },
            None => {},
        }
        proof {
            lemma_dupe_step(keys, i as int, kv);
            assert(forall|v: u64| #[trigger] seen@.contains(v)
                <==> exists|j: int| 0 <= j < i + 1 && keys[j] == Some(v)) by {
                assert forall|v: u64| (exists|j: int| 0 <= j < i + 1 && keys[j] == Some(v))
                    implies #[trigger] seen@.contains(v) by {
                    let j = choose|j: int| 0 <= j < i + 1 && keys[j] == Some(v);
                    if j == i {
                        assert(kv == Some(v));
                    }
                }
            }
        }
        i = i + 1;
    }
    proof {
        assert(keys.take(n as int) =~= keys);
    }

    let ghost pred = survivor_pred(input@, k);
    let mut out: Vec<CandidateFile> = Vec::new();
    let mut i: usize = 0;
    while i < n
        invariant
            n == input@.len(),
            keys == keys_of(input@, k),
            pred == survivor_pred(input@, k),
            i <= n,
            forall|v: u64| #[trigger] dupes@.contains(v) <==> is_dupe_key(keys, v),
            out@ == input@.take(i as int).filter(pred),
        decreases n - i,
    {
        let c = &input[i];
        let kv = key_value(c, k);
        assert(keys[i as int] == kv);
        let mut taken = false;
        match &kv {
            Some(v) => {
                if dupes.contains(v) {
                    out.push(c.clone());
                    taken = true;
                }
            },
            None => {},
        }
        proof {
            reveal(Seq::filter);
            let t1 = input@.take(i + 1);
            assert(t1.drop_last() =~= input@.take(i as int));
            assert(t1.last() == input@[i as int]);
            assert(pred(input@[i as int]) == taken);
        }
        i = i + 1;
    }
    proof {
        assert(input@.take(n as int) =~= input@);
    }
    out
}

/// Every member of a filtered candidate sequence is a member of the original.
pub proof fn lemma_filter_members(s: Seq<CandidateFile>, pred: spec_fn(CandidateFile) -> bool)
    ensures
        forall|i: int| 0 <= i < s.filter(pred).len() ==> s.contains(#[trigger] s.filter(pred)[i]),
    decreases s.len(),
{
    reveal(Seq::filter);
    if s.len() > 0 {
        lemma_filter_members(s.drop_last(), pred);
        let out = s.filter(pred);
        let sub = s.drop_last().filter(pred);
        assert forall|i: int| 0 <= i < out.len() implies s.contains(#[trigger] out[i]) by {
            if pred(s.last()) && i == out.len() - 1 {
                assert(s[s.len() - 1] == out[i]);
            } else {
                assert(out[i] == sub[i]);
                let j = choose|j: int|
                    0 <= j < s.drop_last().len() && s.drop_last()[j] == sub[i];
                assert(s[j] == out[i]);
            }
        }
    }
}

/// Every survivor of a cull is a member of its input and has its stage key
/// known and shared with another member.
pub proof fn lemma_cull_members(s: Seq<CandidateFile>, k: StageKey)
    ensures
        forall|i: int|
            0 <= i < spec_cull(s, k).len() ==> survives(s, k, #[trigger] spec_cull(s, k)[i]),
        forall|i: int| 0 <= i < spec_cull(s, k).len() ==> s.contains(#[trigger] spec_cull(s, k)[i]),
{
    broadcast use vstd::seq_lib::group_filter_ensures;

    let pred = survivor_pred(s, k);
    lemma_filter_members(s, pred);
    assert forall|i: int|
        0 <= i < spec_cull(s, k).len() implies survives(s, k, #[trigger] spec_cull(s, k)[i]) by {
        assert(pred(s.filter(pred)[i]));
    }
}

/// A cull keeps every pointwise property of its input's members.
pub proof fn lemma_cull_pointwise(
    s: Seq<CandidateFile>,
    k: StageKey,
    prop: spec_fn(CandidateFile) -> bool,
)
    requires
        forall|j: int| 0 <= j < s.len() ==> prop(#[trigger] s[j]),
    ensures
        forall|i: int| 0 <= i < spec_cull(s, k).len() ==> prop(#[trigger] spec_cull(s, k)[i]),
{
    lemma_cull_members(s, k);
    assert forall|i: int|
        0 <= i < spec_cull(s, k).len() implies prop(#[trigger] spec_cull(s, k)[i]) by {
        assert(s.contains(spec_cull(s, k)[i]));
        let j = choose|j: int| 0 <= j < s.len() && s[j] == spec_cull(s, k)[i];
        assert(prop(s[j]));
    }
}

/// A filter whose predicate holds of every member keeps the sequence whole.
pub proof fn lemma_filter_all(s: Seq<CandidateFile>, pred: spec_fn(CandidateFile) -> bool)
    requires
        forall|i: int| 0 <= i < s.len() ==> pred(#[trigger] s[i]),
    ensures
        s.filter(pred) == s,
    decreases s.len(),
{
    reveal(Seq::filter);
    if s.len() > 0 {
        assert(forall|i: int|
            0 <= i < s.drop_last().len() ==> pred(#[trigger] s.drop_last()[i]));
        lemma_filter_all(s.drop_last(), pred);
        assert(pred(s.last()));
        assert(s.filter(pred) =~= s);
    } else {
        assert(s.filter(pred) =~= s);
    }
}

/// A key duplicated among the members a filter keeps was already duplicated
/// in the unfiltered sequence: culling never invents a shared key.
pub proof fn lemma_filter_dupe_key(
    s: Seq<CandidateFile>,
    pred: spec_fn(CandidateFile) -> bool,
    k: StageKey,
    v: u64,
)
    requires
        is_dupe_key(keys_of(s.filter(pred), k), v),
    ensures
        is_dupe_key(keys_of(s, k), v),
    decreases s.len(),
{
    reveal(Seq::filter);
    let out = s.filter(pred);
    if s.len() > 0 {
        let sub = s.drop_last().filter(pred);
        let (a, b): (int, int) = choose|a: int, b: int|
            0 <= a < b < keys_of(out, k).len()
            && #[trigger] keys_of(out, k)[a] == Some(v)
            && #[trigger] keys_of(out, k)[b] == Some(v);
        if b < sub.len() {
            assert(out[a] == sub[a] && out[b] == sub[b]);
            assert(keys_of(sub, k)[a] == Some(v) && keys_of(sub, k)[b] == Some(v));
            lemma_filter_dupe_key(s.drop_last(), pred, k, v);
            let (x, y): (int, int) = choose|x: int, y: int|
                0 <= x < y < keys_of(s.drop_last(), k).len()
                && #[trigger] keys_of(s.drop_last(), k)[x] == Some(v)
                && #[trigger] keys_of(s.drop_last(), k)[y] == Some(v);
            assert(keys_of(s, k)[x] == Some(v) && keys_of(s, k)[y] == Some(v));
        } else {
            assert(pred(s.last()) && b == sub.len());
            assert(out[b] == s.last());
            assert(key_of(s.last(), k) == Some(v));
            assert(out[a] == sub[a]);
            lemma_filter_members(s.drop_last(), pred);
            assert(s.drop_last().contains(sub[a]));
            let j = choose|j: int| 0 <= j < s.drop_last().len() && s.drop_last()[j] == sub[a];
            assert(keys_of(s, k)[j] == Some(v));
            assert(keys_of(s, k)[s.len() - 1] == Some(v));
        }
    }
}

/// No two members of `s` carry the same path.
pub open spec fn distinct_paths(s: Seq<CandidateFile>) -> bool {
    forall|i: int, j: int|
        #![trigger s[i], s[j]]
        0 <= i < j < s.len() ==> s[i].path@ != s[j].path@
}

/// Filtering keeps the paths pairwise distinct.
pub proof fn lemma_filter_distinct_paths(
    s: Seq<CandidateFile>,
    pred: spec_fn(CandidateFile) -> bool,
)
    requires
        distinct_paths(s),
    ensures
        distinct_paths(s.filter(pred)),
    decreases s.len(),
{
    reveal(Seq::filter);
    if s.len() > 0 {
        assert(distinct_paths(s.drop_last()));
        lemma_filter_distinct_paths(s.drop_last(), pred);
        lemma_filter_members(s.drop_last(), pred);
        let out = s.filter(pred);
        let sub = s.drop_last().filter(pred);
        assert forall|i: int, j: int|
            #![trigger out[i], out[j]]
            0 <= i < j < out.len() implies out[i].path@ != out[j].path@ by {
            if pred(s.last()) && j == out.len() - 1 {
                assert(out[j] == s.last());
                assert(out[i] == sub[i]);
                assert(s.drop_last().contains(sub[i]));
                let m = choose|m: int| 0 <= m < s.drop_last().len() && s.drop_last()[m] == sub[i];
                assert(s[m].path@ != s[s.len() - 1].path@);
            } else {
                assert(out[i] == sub[i] && out[j] == sub[j]);
            }
        }
    }
}

/// Extending the keys by one position extends the set of duplicated keys by
/// exactly the new key, and only when it was already present once.
proof fn lemma_dupe_step(keys: Seq<Option<u64>>, i: int, kv: Option<u64>)
    requires
        0 <= i < keys.len(),
        keys[i] == kv,
    ensures
        forall|v: u64| #[trigger] is_dupe_key(keys.take(i + 1), v)
            <==> (is_dupe_key(keys.take(i), v)
                || (kv == Some(v) && exists|j: int| 0 <= j < i && keys[j] == Some(v))),
{
    assert forall|v: u64| #[trigger] is_dupe_key(keys.take(i + 1), v)
        implies (is_dupe_key(keys.take(i), v)
            || (kv == Some(v) && exists|j: int| 0 <= j < i && keys[j] == Some(v))) by {
        let (a, b): (int, int) = choose|a: int, b: int|
            0 <= a < b < keys.take(i + 1).len()
            && #[trigger] keys.take(i + 1)[a] == Some(v)
            && #[trigger] keys.take(i + 1)[b] == Some(v);
        if b < i {
            assert(keys.take(i)[a] == Some(v) && keys.take(i)[b] == Some(v));
        } else {
            assert(b == i);
            assert(keys[i] == Some(v));
            assert(keys[a] == Some(v));
        }
    }
    assert forall|v: u64| (is_dupe_key(keys.take(i), v)
            || (kv == Some(v) && exists|j: int| 0 <= j < i && keys[j] == Some(v)))
        implies #[trigger] is_dupe_key(keys.take(i + 1), v) by {
        if is_dupe_key(keys.take(i), v) {
            let (a, b): (int, int) = choose|a: int, b: int|
                0 <= a < b < keys.take(i).len()
                && #[trigger] keys.take(i)[a] == Some(v)
                && #[trigger] keys.take(i)[b] == Some(v);
            assert(keys.take(i + 1)[a] == Some(v) && keys.take(i + 1)[b] == Some(v));
        } else {
            let j = choose|j: int| 0 <= j < i && keys[j] == Some(v);
            assert(keys.take(i + 1)[j] == Some(v) && keys.take(i + 1)[i] == Some(v));
        }
    }
}

} // verus!
