//! Result assembly: order the confirmed duplicates deterministically and
//! render them, one line per duplicate group.
//!
//! A group is a maximal run of candidates sharing size and full-content hash
//! after a stable sort by (size, full hash, path); with the path tiebreak the
//! report does not depend on the order in which traversal found the files.
//! Each group renders as `"<size>: <path> | <path> | ...\n"`.
use vstd::prelude::*;

use vstd::string::StrSliceExecFns;
use vstd::string::StringExecFns;

use crate::candidate::CandidateFile;

verus! {

/// Both grouping keys are known for this candidate.
pub open spec fn has_keys(c: CandidateFile) -> bool {
    c.size is Some && c.full_hash is Some
}

pub open spec fn all_have_keys(s: Seq<CandidateFile>) -> bool {
    forall|i: int| 0 <= i < s.len() ==> has_keys(#[trigger] s[i])
}

/// Strict lexicographic order on paths, character by character by code
/// point; a proper prefix precedes its extensions.
pub open spec fn path_lt(a: Seq<char>, b: Seq<char>) -> bool
    decreases a.len(),
{
    if b.len() == 0 {
        false
    } else if a.len() == 0 {
        true
    } else if a[0] != b[0] {
        (a[0] as u32) < (b[0] as u32)
    } else {
        path_lt(a.drop_first(), b.drop_first())
    }
}

/// The path order is total: two distinct paths compare one way or the other,
/// never both. With it, the sort key (size, full hash, path) orders any two
/// candidates of distinct paths, so the report cannot depend on input order.
pub proof fn lemma_path_lt_trichotomy(a: Seq<char>, b: Seq<char>)
    ensures
        path_lt(a, b) || path_lt(b, a) || a == b,
        !(path_lt(a, b) && path_lt(b, a)),
    decreases a.len(),
{
    if b.len() == 0 {
        if a.len() == 0 {
            assert(a =~= b);
        }
    } else if a.len() == 0 {
    } else if a[0] != b[0] {
        vstd::utf8::char_u32_cast(a[0], a[0] as u32);
        vstd::utf8::char_u32_cast(b[0], b[0] as u32);
        assert((a[0] as u32) != (b[0] as u32));
    } else {
        lemma_path_lt_trichotomy(a.drop_first(), b.drop_first());
        if a.drop_first() == b.drop_first() {
            assert forall|i: int| 0 <= i < a.len() implies a[i] == b[i] by {
                if i > 0 {
                    assert(a.drop_first()[i - 1] == b.drop_first()[i - 1]);
                }
            }
            assert(a =~= b);
        }
    }
}

/// Compare two paths lexicographically.
fn path_lt_exec(a: &str, b: &str) -> (r: bool)
    ensures
        r == path_lt(a@, b@),
{
    let alen = a.unicode_len();
    let blen = b.unicode_len();
    let mut i: usize = 0;
    proof {
        assert(a@.skip(0) =~= a@);
        assert(b@.skip(0) =~= b@);
    }
    while i < alen && i < blen
        invariant
            alen == a@.len(),
            blen == b@.len(),
            i <= alen,
            i <= blen,
            path_lt(a@, b@) == path_lt(a@.skip(i as int), b@.skip(i as int)),
        decreases alen - i,
    {
        let ca = a.get_char(i);
        let cb = b.get_char(i);
        proof {
            assert(a@.skip(i as int)[0] == a@[i as int]);
            assert(b@.skip(i as int)[0] == b@[i as int]);
            assert(a@.skip(i as int).drop_first() =~= a@.skip(i + 1));
            assert(b@.skip(i as int).drop_first() =~= b@.skip(i + 1));
        }
        if ca != cb {
            return (ca as u32) < (cb as u32);
        }
        i = i + 1;
    }
    // One path is a prefix of the other: the shorter one comes first.
    proof {
        if i >= alen {
            assert(a@.skip(i as int).len() == 0);
        } else {
            assert(b@.skip(i as int).len() == 0);
        }
    }
    alen < blen
}

/// The sort order of result assembly: by size, then by full-content hash,
/// then by path, so that the report does not depend on traversal order.
pub open spec fn key_lt(a: CandidateFile, b: CandidateFile) -> bool {
    ||| a.size->0 < b.size->0
    ||| (a.size->0 == b.size->0 && a.full_hash->0 < b.full_hash->0)
    ||| (a.size->0 == b.size->0 && a.full_hash->0 == b.full_hash->0 && path_lt(a.path@, b.path@))
}

/// Two candidates belong to the same reported group.
pub open spec fn same_group(a: CandidateFile, b: CandidateFile) -> bool {
    a.size->0 == b.size->0 && a.full_hash->0 == b.full_hash->0
}

fn key_lt_exec(a: &CandidateFile, b: &CandidateFile) -> (r: bool)
    requires
        has_keys(*a),
        has_keys(*b),
    ensures
        r == key_lt(*a, *b),
{
    let asz = a.size.unwrap();
    let bsz = b.size.unwrap();
    if asz != bsz {
        asz < bsz
    } else {
        let ah = a.full_hash.unwrap();
        let bh = b.full_hash.unwrap();
        if ah != bh {
            ah < bh
        } else {
            path_lt_exec(a.path.as_str(), b.path.as_str())
        }
    }
}

fn same_group_exec(a: &CandidateFile, b: &CandidateFile) -> (r: bool)
    requires
        has_keys(*a),
        has_keys(*b),
    ensures
        r == same_group(*a, *b),
{
    a.size.unwrap() == b.size.unwrap() && a.full_hash.unwrap() == b.full_hash.unwrap()
}

/// `x` placed before the first member of `s` it precedes — after every member
/// it ties with, which keeps the sort stable.
pub open spec fn spec_insert_sorted(x: CandidateFile, s: Seq<CandidateFile>) -> Seq<CandidateFile>
    decreases s.len(),
{
    if s.len() == 0 {
        seq![x]
    } else if key_lt(x, s[0]) {
        seq![x] + s
    } else {
        seq![s[0]] + spec_insert_sorted(x, s.drop_first())
    }
}

/// Stable insertion sort of the candidates by (size, full hash, path).
pub open spec fn spec_sort(s: Seq<CandidateFile>) -> Seq<CandidateFile>
    decreases s.len(),
{
    if s.len() == 0 {
        Seq::empty()
    } else {
        spec_insert_sorted(s.last(), spec_sort(s.drop_last()))
    }
}

/// Inserting `x` at the first position `p` whose member `x` precedes splits
/// `s` there.
proof fn lemma_insert_sorted_at(x: CandidateFile, s: Seq<CandidateFile>, p: int)
    requires
        0 <= p <= s.len(),
        forall|q: int| 0 <= q < p ==> !key_lt(x, #[trigger] s[q]),
        p < s.len() ==> key_lt(x, s[p]),
    ensures
        spec_insert_sorted(x, s) == s.take(p).push(x) + s.skip(p),
    decreases s.len(),
{
    if s.len() == 0 {
        assert(spec_insert_sorted(x, s) =~= s.take(p).push(x) + s.skip(p));
    } else if p == 0 {
        assert(spec_insert_sorted(x, s) =~= s.take(p).push(x) + s.skip(p));
    } else {
        lemma_insert_sorted_at(x, s.drop_first(), p - 1);
        assert(s.drop_first().take(p - 1) =~= s.take(p).skip(1));
        assert(s.drop_first().skip(p - 1) =~= s.skip(p));
        assert(spec_insert_sorted(x, s) =~= s.take(p).push(x) + s.skip(p));
    }
}

/// Insertion keeps every pointwise property of the members.
proof fn lemma_insert_sorted_pointwise(
    x: CandidateFile,
    s: Seq<CandidateFile>,
    prop: spec_fn(CandidateFile) -> bool,
)
    requires
        prop(x),
        forall|i: int| 0 <= i < s.len() ==> prop(#[trigger] s[i]),
    ensures
        forall|i: int|
            0 <= i < spec_insert_sorted(x, s).len() ==> prop(#[trigger] spec_insert_sorted(x, s)[i]),
    decreases s.len(),
{
    let r = spec_insert_sorted(x, s);
    if s.len() == 0 {
        assert(r[0] == x);
    } else if key_lt(x, s[0]) {
        assert forall|i: int| 0 <= i < r.len() implies prop(#[trigger] r[i]) by {
            if i == 0 {
                assert(r[i] == x);
            } else {
                assert(r[i] == s[i - 1]);
            }
        }
    } else {
        assert(forall|i: int|
            0 <= i < s.drop_first().len() ==> prop(#[trigger] s.drop_first()[i]));
        lemma_insert_sorted_pointwise(x, s.drop_first(), prop);
        let rr = spec_insert_sorted(x, s.drop_first());
        assert forall|i: int| 0 <= i < r.len() implies prop(#[trigger] r[i]) by {
            if i == 0 {
                assert(r[i] == s[0]);
            } else {
                assert(r[i] == rr[i - 1]);
            }
        }
    }
}

/// Sorting keeps every pointwise property of the members.
proof fn lemma_sort_pointwise(s: Seq<CandidateFile>, prop: spec_fn(CandidateFile) -> bool)
    requires
        forall|i: int| 0 <= i < s.len() ==> prop(#[trigger] s[i]),
    ensures
        forall|i: int| 0 <= i < spec_sort(s).len() ==> prop(#[trigger] spec_sort(s)[i]),
    decreases s.len(),
{
    if s.len() > 0 {
        assert(forall|i: int|
            0 <= i < s.drop_last().len() ==> prop(#[trigger] s.drop_last()[i]));
        lemma_sort_pointwise(s.drop_last(), prop);
        lemma_insert_sorted_pointwise(s.last(), spec_sort(s.drop_last()), prop);
    }
}

/// Stable insertion sort by (size, full hash, path), preserving the input
/// order of candidates with equal keys.
fn sort_by_size_hash(input: &Vec<CandidateFile>) -> (out: Vec<CandidateFile>)
    requires
        all_have_keys(input@),
    ensures
        out@ == spec_sort(input@),
{
    let n = input.len();
    let mut out: Vec<CandidateFile> = Vec::new();
    let mut i: usize = 0;
    while i < n
        invariant
            n == input@.len(),
            i <= n,
            all_have_keys(input@),
            out@ == spec_sort(input@.take(i as int)),
            all_have_keys(out@),
        decreases n - i,
    {
        let c = &input[i];
        let mut j: usize = 0;
        while j < out.len() && !key_lt_exec(c, &out[j])
            invariant
                j <= out@.len(),
                all_have_keys(out@),
                *c == input@[i as int],
                has_keys(*c),
                forall|q: int| 0 <= q < j ==> !key_lt(*c, #[trigger] out@[q]),
            decreases out@.len() - j,
        {
            j = j + 1;
        }
        let ghost prev = out@;
        out.insert(j, c.clone());
        proof {
            lemma_insert_sorted_at(input@[i as int], prev, j as int);
            assert(out@ =~= spec_insert_sorted(input@[i as int], prev));
            assert(input@.take(i + 1).drop_last() =~= input@.take(i as int));
            assert(input@.take(i + 1).last() == input@[i as int]);
            lemma_insert_sorted_pointwise(input@[i as int], prev, |cc: CandidateFile| has_keys(cc));
            assert forall|q: int| 0 <= q < out@.len() implies has_keys(#[trigger] out@[q]) by {
                let f = |cc: CandidateFile| has_keys(cc);
                assert(f(spec_insert_sorted(input@[i as int], prev)[q]));
            }
        }
        i = i + 1;
    }
    proof {
        assert(input@.take(n as int) =~= input@);
    }
    out
}

pub open spec fn spec_digit_char(d: nat) -> char {
    if d == 0 {
        '0'
    } else if d == 1 {
        '1'
    } else if d == 2 {
        '2'
    } else if d == 3 {
        '3'
    } else if d == 4 {
        '4'
    } else if d == 5 {
        '5'
    } else if d == 6 {
        '6'
    } else if d == 7 {
        '7'
    } else if d == 8 {
        '8'
    } else {
        '9'
    }
}

/// The decimal digits of `n`, most significant first.
pub open spec fn spec_u64_digits(n: nat) -> Seq<char>
    decreases n,
{
    if n < 10 {
        seq![spec_digit_char(n)]
    } else {
        spec_u64_digits(n / 10).push(spec_digit_char(n % 10))
    }
}

fn digit_str(d: u64) -> (s: &'static str)
    requires
        d < 10,
    ensures
        s@ == seq![spec_digit_char(d as nat)],
{
    proof {
        reveal_strlit("0");
        reveal_strlit("1");
        reveal_strlit("2");
        reveal_strlit("3");
        reveal_strlit("4");
        reveal_strlit("5");
        reveal_strlit("6");
        reveal_strlit("7");
        reveal_strlit("8");
        reveal_strlit("9");
        assert("0"@ =~= seq!['0']);
        assert("1"@ =~= seq!['1']);
        assert("2"@ =~= seq!['2']);
        assert("3"@ =~= seq!['3']);
        assert("4"@ =~= seq!['4']);
        assert("5"@ =~= seq!['5']);
        assert("6"@ =~= seq!['6']);
        assert("7"@ =~= seq!['7']);
        assert("8"@ =~= seq!['8']);
        assert("9"@ =~= seq!['9']);
    }
    match d {
        0 => "0",
        1 => "1",
        2 => "2",
        3 => "3",
        4 => "4",
        5 => "5",
        6 => "6",
        7 => "7",
        8 => "8",
        _ => "9",
    }
}

/// Render `n` in decimal.
pub fn u64_to_string(n: u64) -> (s: String)
    ensures
        s@ == spec_u64_digits(n as nat),
    decreases n,
{
    if n < 10 {
        let s = digit_str(n).to_owned();
        s
    } else {
        let mut s = u64_to_string(n / 10);
        s.append(digit_str(n % 10));
        proof {
            assert(s@ =~= spec_u64_digits(n as nat));
        }
        s
    }
}

/// The opening of a group's line: the shared size, a separator, the first
/// member's path.
pub open spec fn spec_line_head(c: CandidateFile) -> Seq<char> {
    spec_u64_digits(c.size->0 as nat) + seq![':', ' '] + c.path@
}

/// What position `i` of the sorted candidates contributes to the output: a
/// fresh line for the first member of each group, a separated path for the
/// rest.
pub open spec fn spec_piece(s: Seq<CandidateFile>, i: int) -> Seq<char> {
    if i == 0 {
        spec_line_head(s[0])
    } else if same_group(s[i - 1], s[i]) {
        seq![' ', '|', ' '] + s[i].path@
    } else {
        seq!['\n'] + spec_line_head(s[i])
    }
}

pub open spec fn spec_rendered_prefix(s: Seq<CandidateFile>, n: int) -> Seq<char>
    decreases n,
{
    if n <= 0 {
        Seq::empty()
    } else {
        spec_rendered_prefix(s, n - 1) + spec_piece(s, n - 1)
    }
}

/// The rendering of an already-sorted candidate sequence, `'\n'`-terminated
/// when it is not empty.
pub open spec fn spec_render(s: Seq<CandidateFile>) -> Seq<char> {
    if s.len() == 0 {
        Seq::empty()
    } else {
        spec_rendered_prefix(s, s.len() as int) + seq!['\n']
    }
}

/// What `format_results` returns: the confirmed duplicates sorted stably by
/// (size, full hash, path) and rendered one group per line.
pub open spec fn spec_format_results(s: Seq<CandidateFile>) -> Seq<char> {
    spec_render(spec_sort(s))
}

fn append_line_head(out: &mut String, c: &CandidateFile)
    requires
        has_keys(*c),
    ensures
        final (out)@ == old(out)@ + spec_line_head(*c),
{
    let num = u64_to_string(c.size.unwrap());
    out.append(num.as_str());
    out.append(": ");
    out.append(c.path.as_str());
    proof {
        reveal_strlit(": ");
        assert(": "@ =~= seq![':', ' ']);
        assert(out@ =~= old(out)@ + spec_line_head(*c));
    }
}

/// Render the confirmed duplicate set: sort it stably by (size, full hash,
/// path), then emit one line per group of equal (size, full hash), of the
/// shape `"<size>: <path> | <path>\n"` with every member's path on the line.
pub fn format_results(input: &Vec<CandidateFile>) -> (out: String)
    requires
        all_have_keys(input@),
    ensures
        out@ == spec_format_results(input@),
{
    let sorted = sort_by_size_hash(input);
    proof {
        lemma_sort_pointwise(input@, |cc: CandidateFile| has_keys(cc));
        assert forall|q: int| 0 <= q < sorted@.len() implies has_keys(#[trigger] sorted@[q]) by {
            let f = |cc: CandidateFile| has_keys(cc);
            assert(f(spec_sort(input@)[q]));
        }
    }
    let n = sorted.len();
    let mut out = String::new();
    let mut i: usize = 0;
    while i < n
        invariant
            n == sorted@.len(),
            i <= n,
            all_have_keys(sorted@),
            sorted@ == spec_sort(input@),
            out@ == spec_rendered_prefix(sorted@, i as int),
        decreases n - i,
    {
        if i == 0 {
            append_line_head(&mut out, &sorted[0]);
        } else {
            let gsame = same_group_exec(&sorted[i - 1], &sorted[i]);
            if gsame {
                out.append(" | ");
                out.append(sorted[i].path.as_str());
                proof {
                    reveal_strlit(" | ");
                    assert(" | "@ =~= seq![' ', '|', ' ']);
                }
            } else {
                out.append("\n");
                proof {
                    reveal_strlit("\n");
                    assert("\n"@ =~= seq!['\n']);
                }
                append_line_head(&mut out, &sorted[i]);
            }
        }
        proof {
            assert(out@ =~= spec_rendered_prefix(sorted@, i + 1));
        }
        i = i + 1;
    }
    if n > 0 {
        out.append("\n");
        proof {
            reveal_strlit("\n");
            assert("\n"@ =~= seq!['\n']);
        }
    }
    proof {
        assert(out@ =~= spec_render(sorted@));
    }
    out
}

} // verus!
