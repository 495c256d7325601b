//! Label normalization and classification.
//!
//! A timeline entry's human-readable label arrives wrapped and indented by
//! the presentation markup. Normalization collapses it into one logical
//! sentence: split on newlines, trim each fragment, drop the empty ones,
//! rejoin with single spaces, and trim the result. Classification then tests
//! the normalized label against the fixed patterns of the five event
//! categories, in priority order.

use vstd::prelude::*;

use crate::text::{
    chars_of, digits_run_end, has_lit_at, is_count, is_digit, is_space, lemma_digits_run_end_props,
    lit_at, scan_digits, string_of, trim_chars, trim_spec, trim_start_spec, trim_end_spec,
};

verus! {

/// The fragments of `s` between newline characters, in order. Splitting the
/// empty string yields one empty fragment, as `str::split('\n')` does.
pub open spec fn split_lines(s: Seq<char>) -> Seq<Seq<char>>
    decreases s.len(),
{
    if s.len() == 0 {
        seq![Seq::<char>::empty()]
    } else if s[0] == '\n' {
        seq![Seq::<char>::empty()] + split_lines(s.drop_first())
    } else {
        let rest = split_lines(s.drop_first());
        seq![seq![s[0]] + rest[0]] + rest.drop_first()
    }
}

/// The fragments joined with a single space between neighbours.
pub open spec fn join_spaced(frags: Seq<Seq<char>>) -> Seq<char>
    decreases frags.len(),
{
    if frags.len() == 0 {
        Seq::empty()
    } else if frags.len() == 1 {
        frags[0]
    } else {
        frags[0] + seq![' '] + join_spaced(frags.drop_first())
    }
}

/// The trimmed fragments among `frags` that survive: the non-empty ones, in
/// order.
pub open spec fn kept_of(frags: Seq<Seq<char>>) -> Seq<Seq<char>>
    decreases frags.len(),
{
    if frags.len() == 0 {
        Seq::empty()
    } else {
        let rest = kept_of(frags.drop_last());
        if trim_spec(frags.last()).len() != 0 {
            rest.push(trim_spec(frags.last()))
        } else {
            rest
        }
    }
}

/// The trimmed fragments of `s` that survive: the non-empty ones.
pub open spec fn kept_fragments(s: Seq<char>) -> Seq<Seq<char>> {
    kept_of(split_lines(s))
}

/// The normalized form of a raw label: surviving fragments joined with
/// single spaces, then trimmed.
pub open spec fn normalize_spec(s: Seq<char>) -> Seq<char> {
    trim_spec(join_spaced(kept_fragments(s)))
}

/// Splitting yields at least one fragment, and no fragment holds a newline.
proof fn lemma_split_lines_props(s: Seq<char>)
    ensures
        split_lines(s).len() >= 1,
        forall|i: int, j: int|
            0 <= i < split_lines(s).len() && 0 <= j < split_lines(s)[i].len() ==> split_lines(
                s,
            )[i][j] != '\n',
    decreases s.len(),
{
    if s.len() == 0 {
    } else if s[0] == '\n' {
        lemma_split_lines_props(s.drop_first());
    } else {
        lemma_split_lines_props(s.drop_first());
        let rest = split_lines(s.drop_first());
        let out = split_lines(s);
        assert forall|i: int, j: int|
            0 <= i < out.len() && 0 <= j < out[i].len() implies out[i][j] != '\n' by {
            if i == 0 {
                if j > 0 {
                    assert(out[0][j] == rest[0][j - 1]);
                }
            } else {
                assert(out[i] == rest[i]);
            }
        }
    }
}

/// If the first `k` characters of `s` are no newlines and the one at `k` (if
/// any) is one, the first fragment is exactly those `k` characters and the
/// rest of the split continues after the newline.
proof fn lemma_split_lines_at(s: Seq<char>, k: int)
    requires
        0 <= k <= s.len(),
        forall|j: int| 0 <= j < k ==> s[j] != '\n',
        k < s.len() ==> s[k] == '\n',
    ensures
        k == s.len() ==> split_lines(s) == seq![s],
        k < s.len() ==> split_lines(s) == seq![s.subrange(0, k)] + split_lines(
            s.subrange(k + 1, s.len() as int),
        ),
    decreases k,
{
    if k == 0 {
        if s.len() == 0 {
            assert(s =~= Seq::<char>::empty());
            assert(split_lines(s) =~= seq![s]);
        } else {
            assert(s.subrange(0, 0) =~= Seq::<char>::empty());
            assert(s.subrange(1, s.len() as int) =~= s.drop_first());
        }
    } else {
        let d = s.drop_first();
        assert(s[0] != '\n');
        lemma_split_lines_at(d, k - 1);
        let rest = split_lines(d);
        if k == s.len() {
            assert(rest == seq![d]);
            assert(rest[0] == d);
            assert(seq![s[0]] + d =~= s);
            assert(rest.drop_first() =~= Seq::<Seq<char>>::empty());
            assert(split_lines(s) == seq![seq![s[0]] + rest[0]] + rest.drop_first());
            assert(seq![seq![s[0]] + rest[0]] + rest.drop_first() =~= seq![s]);
        } else {
            assert(d.subrange(k - 1, d.len() as int) =~= s.subrange(k, s.len() as int));
            assert(rest == seq![d.subrange(0, k - 1)] + split_lines(
                s.subrange(k + 1, s.len() as int),
            )) by {
                assert(d.subrange(k, d.len() as int) =~= s.subrange(k + 1, s.len() as int));
            }
            assert(seq![s[0]] + rest[0] =~= s.subrange(0, k)) by {
                assert(rest[0] == d.subrange(0, k - 1));
            }
            assert(split_lines(s) =~= seq![s.subrange(0, k)] + split_lines(
                s.subrange(k + 1, s.len() as int),
            ));
        }
    }
}

/// Appending a fragment extends the joined string by a separating space (when
/// anything came before) and the fragment.
proof fn lemma_join_push(frags: Seq<Seq<char>>, f: Seq<char>)
    ensures
        frags.len() == 0 ==> join_spaced(frags.push(f)) == f,
        frags.len() > 0 ==> join_spaced(frags.push(f)) == join_spaced(frags) + seq![' '] + f,
    decreases frags.len(),
{
    let p = frags.push(f);
    if frags.len() == 0 {
        assert(p.len() == 1 && p[0] == f);
    } else if frags.len() == 1 {
        assert(p.drop_first() =~= seq![f]);
        assert(join_spaced(seq![f]) == f);
        assert(p[0] == frags[0]);
        assert(join_spaced(p) == frags[0] + seq![' '] + f);
    } else {
        lemma_join_push(frags.drop_first(), f);
        assert(p.drop_first() =~= frags.drop_first().push(f));
        assert(join_spaced(p) == p[0] + seq![' '] + join_spaced(frags.drop_first().push(f)));
        assert((frags[0] + seq![' '] + (join_spaced(frags.drop_first()) + seq![' '] + f)) =~= (
        frags[0] + seq![' '] + join_spaced(frags.drop_first())) + seq![' '] + f);
    }
}

/// A join of non-empty fragments is empty exactly when there are none.
proof fn lemma_join_nonempty(frags: Seq<Seq<char>>)
    requires
        forall|i: int| 0 <= i < frags.len() ==> #[trigger] frags[i].len() > 0,
    ensures
        join_spaced(frags).len() > 0 <==> frags.len() > 0,
{
    if frags.len() == 1 {
        assert(frags[0].len() > 0);
    } else if frags.len() > 1 {
        assert(frags[0].len() > 0);
    }
}

/// The trimmed survivors after one more raw fragment.
proof fn lemma_kept_push(frags: Seq<Seq<char>>, f: Seq<char>)
    ensures
        trim_spec(f).len() == 0 ==> kept_of(frags.push(f)) == kept_of(frags),
        trim_spec(f).len() > 0 ==> kept_of(frags.push(f)) == kept_of(frags).push(trim_spec(f)),
{
    assert(frags.push(f).drop_last() =~= frags);
}

/// Every kept fragment is non-empty.
proof fn lemma_kept_of_nonempty(frags: Seq<Seq<char>>)
    ensures
        forall|i: int| 0 <= i < kept_of(frags).len() ==> #[trigger] kept_of(frags)[i].len() > 0,
    decreases frags.len(),
{
    if frags.len() > 0 {
        lemma_kept_of_nonempty(frags.drop_last());
        let rest = kept_of(frags.drop_last());
        let t = trim_spec(frags.last());
        assert forall|i: int| 0 <= i < kept_of(frags).len() implies #[trigger] kept_of(
            frags,
        )[i].len() > 0 by {
            if t.len() != 0 {
                assert(kept_of(frags) == rest.push(t));
                if i < rest.len() {
                    assert(kept_of(frags)[i] == rest[i]);
                } else {
                    assert(kept_of(frags)[i] == t);
                }
            } else {
                assert(kept_of(frags) == rest);
            }
        }
    }
}

/// Appends `frag`, trimmed, to the joined string `joined`, with a separating
/// space when both sides are non-empty; empty trimmed fragments are dropped.
fn append_fragment(joined: &mut Vec<char>, frag: &Vec<char>, Ghost(kept): Ghost<Seq<Seq<char>>>)
    requires
        old(joined)@ == join_spaced(kept),
        forall|i: int| 0 <= i < kept.len() ==> #[trigger] kept[i].len() > 0,
    ensures
        trim_spec(frag@).len() == 0 ==> final(joined)@ == old(joined)@,
        trim_spec(frag@).len() > 0 ==> final(joined)@ == join_spaced(kept.push(trim_spec(frag@))),
{
    let mut t = trim_chars(frag);
    if t.len() > 0 {
        proof {
            lemma_join_push(kept, t@);
            lemma_join_nonempty(kept);
        }
        if joined.len() > 0 {
            joined.push(' ');
        }
        joined.append(&mut t);
    }
}

/// The normalized form of a raw label (executable form): fragments between
/// newlines are trimmed, empty ones dropped, the rest joined with single
/// spaces, and the result trimmed.
pub fn normalize_label(s: &str) -> (r: String)
    ensures
        r@ == normalize_spec(s@),
{
    let v = chars_of(s);
    let n = v.len();
    let mut joined: Vec<char> = Vec::new();
    let ghost mut done: Seq<Seq<char>> = Seq::empty();
    let mut start: usize = 0;
    let mut i: usize = 0;
    proof {
        assert(v@.subrange(0, n as int) =~= v@);
        assert(Seq::<Seq<char>>::empty() + split_lines(v@) =~= split_lines(v@));
    }
    while i < n
        invariant
            start <= i <= n,
            n == v.len(),
            forall|j: int| start <= j < i ==> v@[j] != '\n',
            split_lines(v@) == done + split_lines(v@.subrange(start as int, n as int)),
            joined@ == join_spaced(kept_of(done)),
            forall|k: int| 0 <= k < kept_of(done).len() ==> #[trigger] kept_of(done)[k].len() > 0,
        decreases n - i,
    {
        if v[i] == '\n' {
            let frag = slice_chars(&v, start, i);
            proof {
                let rest = v@.subrange(start as int, n as int);
                lemma_split_lines_at(rest, i - start);
                assert(rest.subrange(0, i - start) =~= frag@);
                assert(rest.subrange(i - start + 1, rest.len() as int) =~= v@.subrange(
                    i + 1, n as int));
                assert(done + (seq![frag@] + split_lines(v@.subrange(i + 1, n as int))) =~= (done
                    + seq![frag@]) + split_lines(v@.subrange(i + 1, n as int)));
                assert(done.push(frag@) =~= done + seq![frag@]);
                lemma_kept_push(done, frag@);
                lemma_kept_of_nonempty(done.push(frag@));
            }
            append_fragment(&mut joined, &frag, Ghost(kept_of(done)));
            proof {
                done = done.push(frag@);
            }
            start = i + 1;
        }
        i = i + 1;
    }
    let frag = slice_chars(&v, start, n);
    proof {
        let rest = v@.subrange(start as int, n as int);
        lemma_split_lines_at(rest, n - start);
        assert(rest =~= frag@);
        assert(done + seq![frag@] =~= done.push(frag@));
        lemma_kept_push(done, frag@);
    }
    append_fragment(&mut joined, &frag, Ghost(kept_of(done)));
    proof {
        done = done.push(frag@);
        assert(done == split_lines(v@));
        assert(kept_of(done) == kept_fragments(v@));
    }
    let r = trim_chars(&joined);
    string_of(&r)
}

proof fn lemma_trim_start_no_nl(s: Seq<char>)
    requires
        forall|j: int| 0 <= j < s.len() ==> s[j] != '\n',
    ensures
        forall|j: int|
            0 <= j < trim_start_spec(s).len() ==> #[trigger] trim_start_spec(s)[j] != '\n',
    decreases s.len(),
{
    if s.len() > 0 && is_space(s[0]) {
        let d = s.drop_first();
        assert(forall|j: int| 0 <= j < d.len() ==> d[j] == s[j + 1] && #[trigger] d[j] != '\n');
        lemma_trim_start_no_nl(d);
        assert forall|j: int|
            0 <= j < trim_start_spec(s).len() implies #[trigger] trim_start_spec(s)[j]
            != '\n' by {
            assert(trim_start_spec(s)[j] == trim_start_spec(d)[j]);
        }
    } else {
        assert forall|j: int|
            0 <= j < trim_start_spec(s).len() implies #[trigger] trim_start_spec(s)[j]
            != '\n' by {
            assert(trim_start_spec(s)[j] == s[j]);
        }
    }
}

proof fn lemma_trim_end_no_nl(s: Seq<char>)
    requires
        forall|j: int| 0 <= j < s.len() ==> s[j] != '\n',
    ensures
        forall|j: int| 0 <= j < trim_end_spec(s).len() ==> #[trigger] trim_end_spec(s)[j] != '\n',
    decreases s.len(),
{
    if s.len() > 0 && is_space(s.last()) {
        let d = s.drop_last();
        assert(forall|j: int| 0 <= j < d.len() ==> d[j] == s[j] && #[trigger] d[j] != '\n');
        lemma_trim_end_no_nl(d);
        assert forall|j: int|
            0 <= j < trim_end_spec(s).len() implies #[trigger] trim_end_spec(s)[j] != '\n' by {
            assert(trim_end_spec(s)[j] == trim_end_spec(d)[j]);
        }
    } else {
        assert forall|j: int|
            0 <= j < trim_end_spec(s).len() implies #[trigger] trim_end_spec(s)[j] != '\n' by {
            assert(trim_end_spec(s)[j] == s[j]);
        }
    }
}

/// Trimming keeps a string free of newlines.
proof fn lemma_trim_no_nl(s: Seq<char>)
    requires
        forall|j: int| 0 <= j < s.len() ==> s[j] != '\n',
    ensures
        forall|j: int| 0 <= j < trim_spec(s).len() ==> #[trigger] trim_spec(s)[j] != '\n',
{
    lemma_trim_start_no_nl(s);
    lemma_trim_end_no_nl(trim_start_spec(s));
}

/// Joining newline-free fragments with spaces yields a newline-free string.
proof fn lemma_join_no_nl(frags: Seq<Seq<char>>)
    requires
        forall|i: int, j: int|
            0 <= i < frags.len() && 0 <= j < frags[i].len() ==> frags[i][j] != '\n',
    ensures
        forall|j: int| 0 <= j < join_spaced(frags).len() ==> #[trigger] join_spaced(frags)[j]
            != '\n',
    decreases frags.len(),
{
    if frags.len() <= 1 {
    } else {
        let d = frags.drop_first();
        assert(forall|i: int, j: int|
            0 <= i < d.len() && 0 <= j < d[i].len() ==> #[trigger] d[i][j] == frags[i + 1][j]
                && d[i][j] != '\n');
        lemma_join_no_nl(d);
        let out = join_spaced(frags);
        assert forall|j: int| 0 <= j < out.len() implies #[trigger] out[j] != '\n' by {
            if j < frags[0].len() {
                assert(out[j] == frags[0][j]);
            } else if j == frags[0].len() {
                assert(out[j] == ' ');
            } else {
                assert(out[j] == join_spaced(d)[j - frags[0].len() - 1]);
            }
        }
    }
}

/// The kept fragments of newline-free raw fragments are newline-free.
proof fn lemma_kept_of_no_nl(frags: Seq<Seq<char>>)
    requires
        forall|i: int, j: int|
            0 <= i < frags.len() && 0 <= j < frags[i].len() ==> frags[i][j] != '\n',
    ensures
        forall|i: int, j: int|
            0 <= i < kept_of(frags).len() && 0 <= j < kept_of(frags)[i].len() ==> kept_of(
                frags,
            )[i][j] != '\n',
    decreases frags.len(),
{
    if frags.len() > 0 {
        let d = frags.drop_last();
        assert(forall|i: int, j: int|
            0 <= i < d.len() && 0 <= j < d[i].len() ==> #[trigger] d[i][j] == frags[i][j] && d[i][j]
                != '\n');
        lemma_kept_of_no_nl(d);
        let rest = kept_of(d);
        let t = trim_spec(frags.last());
        assert(forall|j: int| 0 <= j < frags.last().len() ==> frags.last()[j] != '\n');
        lemma_trim_no_nl(frags.last());
        assert forall|i: int, j: int|
            0 <= i < kept_of(frags).len() && 0 <= j < kept_of(frags)[i].len() implies kept_of(
            frags,
        )[i][j] != '\n' by {
            if t.len() != 0 {
                assert(kept_of(frags) == rest.push(t));
                if i < rest.len() {
                    assert(kept_of(frags)[i] == rest[i]);
                } else {
                    assert(kept_of(frags)[i] == t);
                }
            } else {
                assert(kept_of(frags) == rest);
            }
        }
    }
}

/// Normalization is idempotent: normalizing an already-normalized label
/// returns it unchanged.
pub proof fn lemma_normalize_idempotent(s: Seq<char>)
    ensures
        normalize_spec(normalize_spec(s)) == normalize_spec(s),
{
    let frags = split_lines(s);
    let kept = kept_of(frags);
    let j = join_spaced(kept);
    let r = normalize_spec(s);
    lemma_split_lines_props(s);
    lemma_kept_of_no_nl(frags);
    lemma_join_no_nl(kept);
    lemma_trim_no_nl(j);
    assert(forall|p: int| 0 <= p < r.len() ==> r[p] != '\n');
    lemma_split_lines_at(r, r.len() as int);
    assert(split_lines(r) == seq![r]);
    crate::text::lemma_trim_idempotent(j);
    assert(trim_spec(r) == r);
    let kr = kept_of(seq![r]);
    assert(seq![r].drop_last() =~= Seq::<Seq<char>>::empty());
    assert(seq![r].last() == r);
    assert(kept_of(Seq::<Seq<char>>::empty()) == Seq::<Seq<char>>::empty());
    assert(Seq::<Seq<char>>::empty().push(r) =~= seq![r]);
    if r.len() == 0 {
        assert(kr == Seq::<Seq<char>>::empty());
        assert(join_spaced(kr) == Seq::<char>::empty());
        assert(trim_spec(Seq::<char>::empty()) == Seq::<char>::empty());
        assert(normalize_spec(r) == r);
    } else {
        assert(kr =~= seq![r]);
        assert(join_spaced(kr) == r);
        assert(normalize_spec(r) == r);
    }
}

/// The word closing every pattern: `repositor` followed by `y` or `ies`,
/// after a separating space.
pub open spec fn repository_word(ies: bool) -> Seq<char> {
    " repositor"@ + (if ies {
        "ies"@
    } else {
        "y"@
    })
}

/// A count followed by the repository word: the common ending
/// `<N> repositor(y|ies)` of all five patterns.
pub open spec fn count_repos_shape(t: Seq<char>, n: Seq<char>, ies: bool) -> bool {
    is_count(n) && t == n + repository_word(ies)
}

/// Whether `s` ends, from position `pos` on, with `<N> repositor(y|ies)`.
pub open spec fn count_repos_at(s: Seq<char>, pos: int) -> bool {
    exists|n: Seq<char>, ies: bool|
        #[trigger] count_repos_shape(s.subrange(pos, s.len() as int), n, ies)
}

/// Matches `<N> repositor(y|ies)` against all of `v` from `pos` to the end.
fn match_count_repos(v: &Vec<char>, pos: usize) -> (b: bool)
    requires
        pos <= v.len(),
    ensures
        b == count_repos_at(v@, pos as int),
{
    let ghost t = v@.subrange(pos as int, v@.len() as int);
    let e = scan_digits(v, pos);
    proof {
        lemma_digits_run_end_props(v@, pos as int);
    }
    if e == pos {
        proof {
            if count_repos_at(v@, pos as int) {
                let (n, ies) = choose|n: Seq<char>, ies: bool| count_repos_shape(t, n, ies);
                lemma_count_repos_decompose(v@, pos as int, n, ies);
            }
        }
        return false;
    }
    if !has_lit_at(v, e, " repositor") {
        proof {
            if count_repos_at(v@, pos as int) {
                let (n, ies) = choose|n: Seq<char>, ies: bool| count_repos_shape(t, n, ies);
                lemma_count_repos_decompose(v@, pos as int, n, ies);
            }
        }
        return false;
    }
    let rl = " repositor".unicode_len();
    let p = e + rl;
    let yl = "y".unicode_len();
    let il = "ies".unicode_len();
    let ghost n0 = v@.subrange(pos as int, e as int);
    proof {
        assert(is_count(n0)) by {
            assert(forall|i: int| 0 <= i < n0.len() ==> n0[i] == v@[pos + i] && is_digit(#[trigger] n0[i]));
        }
    }
    if v.len() - p == yl && has_lit_at(v, p, "y") {
        proof {
            assert(t =~= n0 + repository_word(false));
            assert(count_repos_shape(t, n0, false));
        }
        return true;
    }
    if v.len() - p == il && has_lit_at(v, p, "ies") {
        proof {
            assert(t =~= n0 + repository_word(true));
            assert(count_repos_shape(t, n0, true));
        }
        return true;
    }
    proof {
        if count_repos_at(v@, pos as int) {
            let (n, ies) = choose|n: Seq<char>, ies: bool| count_repos_shape(t, n, ies);
            lemma_count_repos_decompose(v@, pos as int, n, ies);
        }
    }
    false
}

/// In a string ending `<N> repositor(y|ies)` from `pos`, each piece stands at
/// a determined position: the digit run from `pos` is exactly `<N>`, the
/// repository word follows it, and its `y`/`ies` tail closes the string.
proof fn lemma_count_repos_decompose(s: Seq<char>, pos: int, n: Seq<char>, ies: bool)
    requires
        0 <= pos <= s.len(),
        count_repos_shape(s.subrange(pos, s.len() as int), n, ies),
    ensures
        digits_run_end(s, pos) == pos + n.len(),
        s.len() == pos + n.len() + " repositor"@.len() + (if ies {
            "ies"@.len()
        } else {
            "y"@.len()
        }),
        lit_at(s, pos + n.len(), " repositor"@),
        ies ==> lit_at(s, pos + n.len() + " repositor"@.len() as int, "ies"@),
        !ies ==> lit_at(s, pos + n.len() + " repositor"@.len() as int, "y"@),
{
    let t = s.subrange(pos, s.len() as int);
    let w = repository_word(ies);
    let sfx: Seq<char> = if ies {
        "ies"@
    } else {
        "y"@
    };
    let rw = " repositor"@;
    reveal_strlit(" repositor");
    assert(rw.len() == 10 && rw[0] == ' ');
    assert(t.len() == n.len() + w.len());
    assert(w.len() == rw.len() + sfx.len());
    assert(forall|j: int| 0 <= j < t.len() ==> #[trigger] t[j] == s[pos + j]);
    let e = pos + n.len();
    assert(forall|j: int| pos <= j < e ==> is_digit(#[trigger] s[j])) by {
        assert(forall|j: int| pos <= j < e ==> #[trigger] s[j] == t[j - pos] && t[j - pos] == n[j
            - pos]);
    }
    assert(s[e] == ' ') by {
        assert(t[n.len() as int] == w[0]);
        assert(w[0] == rw[0]);
    }
    assert(!is_digit(' '));
    crate::text::lemma_digits_run_end_is(s, pos, e);
    assert forall|j: int|
        0 <= j < rw.len() implies s.subrange(e, e + rw.len() as int)[j] == rw[j] by {
        assert(s.subrange(e, e + rw.len() as int)[j] == s[e + j]);
        assert(s[e + j] == t[n.len() + j]);
        assert(t[n.len() + j] == w[j]);
        assert(w[j] == rw[j]);
    }
    assert(s.subrange(e, e + rw.len() as int) =~= rw);
    let q = e + rw.len() as int;
    assert forall|j: int|
        0 <= j < sfx.len() implies s.subrange(q, q + sfx.len() as int)[j] == sfx[j] by {
        assert(s.subrange(q, q + sfx.len() as int)[j] == s[q + j]);
        assert(s[q + j] == t[n.len() + rw.len() + j]);
        assert(t[n.len() + rw.len() + j] == w[rw.len() + j]);
        assert(w[rw.len() + j] == sfx[j]);
    }
    assert(s.subrange(q, q + sfx.len() as int) =~= sfx);
}

/// `piece` when `present`, else nothing: an optional part of a pattern.
pub open spec fn opt_piece(present: bool, piece: Seq<char>) -> Seq<char> {
    if present {
        piece
    } else {
        Seq::empty()
    }
}

/// The tail that follows the leading count in most patterns:
/// `( other)?<noun>(s)? in <N> repositor(y|ies)`.
pub open spec fn noun_tail_seq(
    noun: Seq<char>,
    other: bool,
    plural: bool,
    n2: Seq<char>,
    ies: bool,
) -> Seq<char> {
    opt_piece(other, " other"@) + noun + opt_piece(plural, "s"@) + " in "@ + n2 + repository_word(
        ies,
    )
}

/// `t` is exactly a noun tail with the given parts.
pub open spec fn noun_tail_shape(
    t: Seq<char>,
    noun: Seq<char>,
    other: bool,
    plural: bool,
    n2: Seq<char>,
    ies: bool,
) -> bool {
    is_count(n2) && t == noun_tail_seq(noun, other, plural, n2, ies)
}

/// Whether `s`, from `pos` to its end, is a noun tail whose optional parts
/// respect what the pattern allows.
pub open spec fn noun_tail_at(
    s: Seq<char>,
    pos: int,
    noun: Seq<char>,
    allow_other: bool,
    allow_plural: bool,
) -> bool {
    exists|other: bool, plural: bool, n2: Seq<char>, ies: bool|
        (#[trigger] noun_tail_shape(s.subrange(pos, s.len() as int), noun, other, plural, n2, ies))
            && (other ==> allow_other) && (plural ==> allow_plural)
}

/// A noun usable in a tail: it starts with the separating space and its
/// second character can be confused neither with ` other` nor with a digit.
pub open spec fn noun_wf(noun: Seq<char>) -> bool {
    noun.len() >= 2 && noun[0] == ' ' && noun[1] != 'o'
}

/// Positions of the parts of a noun tail standing at `pos`: each piece is
/// determined, so a left-to-right scan finds exactly these.
proof fn lemma_noun_tail_decompose(
    s: Seq<char>,
    pos: int,
    noun: Seq<char>,
    other: bool,
    plural: bool,
    n2: Seq<char>,
    ies: bool,
)
    requires
        0 <= pos <= s.len(),
        noun_wf(noun),
        noun_tail_shape(s.subrange(pos, s.len() as int), noun, other, plural, n2, ies),
    ensures
        other ==> lit_at(s, pos, " other"@),
        !other ==> !lit_at(s, pos, " other"@),
        lit_at(s, pos + opt_piece(other, " other"@).len(), noun),
        plural ==> lit_at(s, pos + opt_piece(other, " other"@).len() + noun.len(), "s"@),
        !plural ==> !lit_at(s, pos + opt_piece(other, " other"@).len() + noun.len(), "s"@),
        lit_at(
            s,
            pos + opt_piece(other, " other"@).len() + noun.len() + opt_piece(plural, "s"@).len(),
            " in "@,
        ),
        count_repos_shape(
            s.subrange(
                pos + opt_piece(other, " other"@).len() + noun.len() + opt_piece(
                    plural,
                    "s"@,
                ).len() + " in "@.len(),
                s.len() as int,
            ),
            n2,
            ies,
        ),
{
    let t = s.subrange(pos, s.len() as int);
    let po = opt_piece(other, " other"@);
    let pp = opt_piece(plural, "s"@);
    let w = repository_word(ies);
    let a = po.len() as int;
    let b = a + noun.len() as int;
    let c = b + pp.len() as int;
    let d = c + " in "@.len() as int;
    let e = d + n2.len() as int;
    assert(forall|j: int| 0 <= j < t.len() ==> #[trigger] t[j] == s[pos + j]);
    assert(t.len() == a + noun.len() + pp.len() + " in "@.len() + n2.len() + w.len());
    // the optional ` other`
    if other {
        assert forall|j: int| 0 <= j < a implies s.subrange(pos, pos + a)[j] == " other"@[j] by {
            assert(t[j] == po[j]);
        }
        assert(s.subrange(pos, pos + a) =~= " other"@);
    } else {
        reveal_strlit(" other");
        if lit_at(s, pos, " other"@) {
            assert(s.subrange(pos, pos + " other"@.len() as int)[1] == 'o');
            assert(s[pos + 1] == t[1]);
            assert(t[1] == noun[1]);
            assert(false);
        }
    }
    // the noun
    assert forall|j: int|
        0 <= j < noun.len() implies s.subrange(pos + a, pos + b)[j] == noun[j] by {
        assert(s.subrange(pos + a, pos + b)[j] == s[pos + a + j]);
        assert(s[pos + a + j] == t[a + j]);
        assert(t[a + j] == noun[j]);
    }
    assert(s.subrange(pos + a, pos + b) =~= noun);
    // the optional plural `s`
    if plural {
        assert forall|j: int|
            0 <= j < pp.len() implies s.subrange(pos + b, pos + c)[j] == "s"@[j] by {
            assert(s.subrange(pos + b, pos + c)[j] == s[pos + b + j]);
            assert(s[pos + b + j] == t[b + j]);
            assert(t[b + j] == pp[j]);
        }
        assert(s.subrange(pos + b, pos + c) =~= "s"@);
    } else {
        reveal_strlit("s");
        reveal_strlit(" in ");
        if lit_at(s, pos + b, "s"@) {
            assert(s.subrange(pos + b, pos + b + "s"@.len() as int)[0] == 's');
            assert(s[pos + b] == t[b]);
            assert(t[b] == " in "@[0]);
            assert(false);
        }
    }
    // ` in `
    assert forall|j: int| 0 <= j < " in "@.len() implies s.subrange(pos + c, pos + d)[j]
        == " in "@[j] by {
        assert(s.subrange(pos + c, pos + d)[j] == s[pos + c + j]);
        assert(s[pos + c + j] == t[c + j]);
        assert(t[c + j] == " in "@[j]);
    }
    assert(s.subrange(pos + c, pos + d) =~= " in "@);
    // the closing count and repository word
    let u = s.subrange(pos + d, s.len() as int);
    assert forall|j: int| 0 <= j < u.len() implies u[j] == (n2 + w)[j] by {
        assert(u[j] == s[pos + d + j]);
        assert(s[pos + d + j] == t[d + j]);
        assert(t[d + j] == (n2 + w)[j]);
    }
    assert(u =~= n2 + w);
}

/// The converse: pieces standing at their positions make up a noun tail.
proof fn lemma_noun_tail_compose(
    s: Seq<char>,
    pos: int,
    noun: Seq<char>,
    other: bool,
    plural: bool,
    n2: Seq<char>,
    ies: bool,
)
    requires
        0 <= pos <= s.len(),
        other ==> lit_at(s, pos, " other"@),
        lit_at(s, pos + opt_piece(other, " other"@).len(), noun),
        plural ==> lit_at(s, pos + opt_piece(other, " other"@).len() + noun.len(), "s"@),
        lit_at(
            s,
            pos + opt_piece(other, " other"@).len() + noun.len() + opt_piece(plural, "s"@).len(),
            " in "@,
        ),
        count_repos_shape(
            s.subrange(
                pos + opt_piece(other, " other"@).len() + noun.len() + opt_piece(
                    plural,
                    "s"@,
                ).len() + " in "@.len(),
                s.len() as int,
            ),
            n2,
            ies,
        ),
    ensures
        noun_tail_shape(s.subrange(pos, s.len() as int), noun, other, plural, n2, ies),
{
    let t = s.subrange(pos, s.len() as int);
    let po = opt_piece(other, " other"@);
    let pp = opt_piece(plural, "s"@);
    let w = repository_word(ies);
    let a = po.len() as int;
    let b = a + noun.len() as int;
    let c = b + pp.len() as int;
    let d = c + " in "@.len() as int;
    let u = s.subrange(pos + d, s.len() as int);
    let exp = noun_tail_seq(noun, other, plural, n2, ies);
    assert(u == n2 + w);
    assert(t.len() == exp.len());
    assert forall|j: int| 0 <= j < t.len() implies t[j] == exp[j] by {
        assert(t[j] == s[pos + j]);
        if j < a {
            assert(s.subrange(pos, pos + " other"@.len() as int)[j] == s[pos + j]);
            assert(exp[j] == po[j]);
        } else if j < b {
            assert(s.subrange(pos + a, pos + a + noun.len() as int)[j - a] == s[pos + j]);
            assert(exp[j] == noun[j - a]);
        } else if j < c {
            assert(s.subrange(pos + b, pos + b + "s"@.len() as int)[j - b] == s[pos + j]);
            assert(exp[j] == pp[j - b]);
        } else if j < d {
            assert(s.subrange(pos + c, pos + c + " in "@.len() as int)[j - c] == s[pos + j]);
            assert(exp[j] == " in "@[j - c]);
        } else {
            assert(u[j - d] == s[pos + j]);
            assert(exp[j] == (n2 + w)[j - d]);
        }
    }
    assert(t =~= exp);
}

/// Matches `( other)?<noun>(s)? in <N> repositor(y|ies)` against all of `v`
/// from `pos` to the end, taking the optional parts only where the pattern
/// allows them.
fn match_noun_tail(
    v: &Vec<char>,
    pos: usize,
    noun: &str,
    allow_other: bool,
    allow_plural: bool,
) -> (b: bool)
    requires
        pos <= v.len(),
        noun_wf(noun@),
    ensures
        b == noun_tail_at(v@, pos as int, noun@, allow_other, allow_plural),
{
    let ghost t = v@.subrange(pos as int, v@.len() as int);
    let mut p = pos;
    let mut took_other = false;
    if allow_other && has_lit_at(v, pos, " other") {
        p = pos + " other".unicode_len();
        took_other = true;
    }
    if !has_lit_at(v, p, noun) {
        proof {
            if noun_tail_at(v@, pos as int, noun@, allow_other, allow_plural) {
                let (other, plural, n2, ies) = choose|
                    other: bool,
                    plural: bool,
                    n2: Seq<char>,
                    ies: bool,
                |
                    noun_tail_shape(t, noun@, other, plural, n2, ies) && (other ==> allow_other)
                        && (plural ==> allow_plural);
                lemma_noun_tail_decompose(v@, pos as int, noun@, other, plural, n2, ies);
                assert(took_other == other);
                assert(p == pos + opt_piece(other, " other"@).len());
            }
        }
        return false;
    }
    let p2 = p + noun.unicode_len();
    let mut p3 = p2;
    let mut took_plural = false;
    if allow_plural && has_lit_at(v, p2, "s") {
        p3 = p2 + "s".unicode_len();
        took_plural = true;
    }
    if !has_lit_at(v, p3, " in ") {
        proof {
            if noun_tail_at(v@, pos as int, noun@, allow_other, allow_plural) {
                let (other, plural, n2, ies) = choose|
                    other: bool,
                    plural: bool,
                    n2: Seq<char>,
                    ies: bool,
                |
                    noun_tail_shape(t, noun@, other, plural, n2, ies) && (other ==> allow_other)
                        && (plural ==> allow_plural);
                lemma_noun_tail_decompose(v@, pos as int, noun@, other, plural, n2, ies);
                assert(took_other == other);
                assert(took_plural == plural);
                assert(p3 == pos + opt_piece(other, " other"@).len() + noun@.len() + opt_piece(
                    plural,
                    "s"@,
                ).len());
            }
        }
        return false;
    }
    let p4 = p3 + " in ".unicode_len();
    let r = match_count_repos(v, p4);
    proof {
        if r {
            let (n2, ies) = choose|n2: Seq<char>, ies: bool|
                count_repos_shape(v@.subrange(p4 as int, v@.len() as int), n2, ies);
            lemma_noun_tail_compose(v@, pos as int, noun@, took_other, took_plural, n2, ies);
            assert(noun_tail_shape(t, noun@, took_other, took_plural, n2, ies));
        } else {
            if noun_tail_at(v@, pos as int, noun@, allow_other, allow_plural) {
                let (other, plural, n2, ies) = choose|
                    other: bool,
                    plural: bool,
                    n2: Seq<char>,
                    ies: bool,
                |
                    noun_tail_shape(t, noun@, other, plural, n2, ies) && (other ==> allow_other)
                        && (plural ==> allow_plural);
                lemma_noun_tail_decompose(v@, pos as int, noun@, other, plural, n2, ies);
                assert(took_other == other);
                assert(took_plural == plural);
                assert(p4 == pos + opt_piece(other, " other"@).len() + noun@.len() + opt_piece(
                    plural,
                    "s"@,
                ).len() + " in "@.len());
                assert(count_repos_shape(v@.subrange(p4 as int, v@.len() as int), n2, ies));
            }
        }
    }
    r
}

/// A whole label of the common form `<verb><N><noun tail>`: a verb with its
/// trailing space, a count, and a noun tail.
pub open spec fn label_shape(
    s: Seq<char>,
    verb: Seq<char>,
    noun: Seq<char>,
    n1: Seq<char>,
    other: bool,
    plural: bool,
    n2: Seq<char>,
    ies: bool,
) -> bool {
    is_count(n1) && is_count(n2) && s == verb + n1 + noun_tail_seq(noun, other, plural, n2, ies)
}

/// Whether `s` is a label of the common form, with the optional parts
/// restricted to what the pattern allows.
pub open spec fn verb_label_at(
    s: Seq<char>,
    verb: Seq<char>,
    noun: Seq<char>,
    allow_other: bool,
    allow_plural: bool,
) -> bool {
    exists|n1: Seq<char>, other: bool, plural: bool, n2: Seq<char>, ies: bool|
        (#[trigger] label_shape(s, verb, noun, n1, other, plural, n2, ies)) && (other
            ==> allow_other) && (plural ==> allow_plural)
}

/// `Created <N> commits in <N> repositor(y|ies)`.
pub open spec fn matches_push(s: Seq<char>) -> bool {
    exists|n1: Seq<char>, n2: Seq<char>, ies: bool|
        #[trigger] label_shape(s, "Created "@, " commits"@, n1, false, false, n2, ies)
}

/// `Created <N> repositor(y|ies)`.
pub open spec fn create_repository_shape(s: Seq<char>, n: Seq<char>, ies: bool) -> bool {
    is_count(n) && s == "Created "@ + n + repository_word(ies)
}

/// Whether `s` matches `Created <N> repositor(y|ies)`.
pub open spec fn matches_create_repository(s: Seq<char>) -> bool {
    exists|n: Seq<char>, ies: bool| #[trigger] create_repository_shape(s, n, ies)
}

/// `Opened <N> (other )?pull request(s)? in <N> repositor(y|ies)`.
pub open spec fn matches_pull_request(s: Seq<char>) -> bool {
    exists|n1: Seq<char>, other: bool, plural: bool, n2: Seq<char>, ies: bool|
        #[trigger] label_shape(s, "Opened "@, " pull request"@, n1, other, plural, n2, ies)
}

/// `Reviewed <N> pull request(s)? in <N> repositor(y|ies)`.
pub open spec fn matches_pull_request_review(s: Seq<char>) -> bool {
    exists|n1: Seq<char>, plural: bool, n2: Seq<char>, ies: bool|
        #[trigger] label_shape(s, "Reviewed "@, " pull request"@, n1, false, plural, n2, ies)
}

/// `Opened <N> (other )?issue(s)? in <N> repositor(y|ies)`.
pub open spec fn matches_issue(s: Seq<char>) -> bool {
    exists|n1: Seq<char>, other: bool, plural: bool, n2: Seq<char>, ies: bool|
        #[trigger] label_shape(s, "Opened "@, " issue"@, n1, other, plural, n2, ies)
}

/// Positions of the parts of a whole label: the verb opens it, the count is
/// the digit run after the verb, and the noun tail fills the rest.
proof fn lemma_label_decompose(
    s: Seq<char>,
    verb: Seq<char>,
    noun: Seq<char>,
    n1: Seq<char>,
    other: bool,
    plural: bool,
    n2: Seq<char>,
    ies: bool,
)
    requires
        noun_wf(noun),
        label_shape(s, verb, noun, n1, other, plural, n2, ies),
    ensures
        lit_at(s, 0, verb),
        n1.len() >= 1,
        verb.len() + n1.len() <= s.len(),
        digits_run_end(s, verb.len() as int) == verb.len() + n1.len(),
        noun_tail_shape(
            s.subrange(verb.len() + n1.len() as int, s.len() as int),
            noun,
            other,
            plural,
            n2,
            ies,
        ),
{
    let tail = noun_tail_seq(noun, other, plural, n2, ies);
    let l = verb.len() as int;
    let e = l + n1.len() as int;
    assert(s.len() == verb.len() + n1.len() + tail.len());
    assert(forall|j: int| 0 <= j < s.len() ==> #[trigger] s[j] == (verb + n1 + tail)[j]);
    assert forall|j: int| 0 <= j < l implies s.subrange(0, l)[j] == verb[j] by {
        assert(s.subrange(0, l)[j] == s[j]);
        assert(s[j] == verb[j]);
    }
    assert(s.subrange(0, l) =~= verb);
    assert(forall|j: int| l <= j < e ==> is_digit(#[trigger] s[j])) by {
        assert(forall|j: int| l <= j < e ==> #[trigger] s[j] == n1[j - l]);
    }
    assert(tail.len() > 0 && tail[0] == ' ') by {
        reveal_strlit(" other");
        if other {
            assert(tail[0] == " other"@[0]);
        } else {
            assert(tail[0] == noun[0]);
        }
    }
    assert(s[e] == ' ') by {
        assert(s[e] == tail[0]);
    }
    assert(!is_digit(' '));
    crate::text::lemma_digits_run_end_is(s, l, e);
    let u = s.subrange(e, s.len() as int);
    assert forall|j: int| 0 <= j < u.len() implies u[j] == tail[j] by {
        assert(u[j] == s[e + j]);
        assert(s[e + j] == tail[j]);
    }
    assert(u =~= tail);
}

/// The converse: a verb at the front, a digit run, and a noun tail make up a
/// whole label.
proof fn lemma_label_compose(
    s: Seq<char>,
    verb: Seq<char>,
    noun: Seq<char>,
    e1: int,
    other: bool,
    plural: bool,
    n2: Seq<char>,
    ies: bool,
)
    requires
        lit_at(s, 0, verb),
        verb.len() < e1 <= s.len(),
        forall|j: int| verb.len() <= j < e1 ==> is_digit(#[trigger] s[j]),
        noun_tail_shape(s.subrange(e1, s.len() as int), noun, other, plural, n2, ies),
    ensures
        label_shape(s, verb, noun, s.subrange(verb.len() as int, e1), other, plural, n2, ies),
{
    let l = verb.len() as int;
    let n1 = s.subrange(l, e1);
    let tail = noun_tail_seq(noun, other, plural, n2, ies);
    let exp = verb + n1 + tail;
    assert(is_count(n1)) by {
        assert(forall|j: int| 0 <= j < n1.len() ==> #[trigger] n1[j] == s[l + j]);
    }
    assert(s.subrange(e1, s.len() as int) == tail);
    assert(s.len() == exp.len());
    assert forall|j: int| 0 <= j < s.len() implies s[j] == exp[j] by {
        if j < l {
            assert(s.subrange(0, l)[j] == s[j]);
            assert(exp[j] == verb[j]);
        } else if j < e1 {
            assert(exp[j] == n1[j - l]);
        } else {
            assert(s.subrange(e1, s.len() as int)[j - e1] == s[j]);
            assert(exp[j] == tail[j - e1]);
        }
    }
    assert(s =~= exp);
}

/// Matches `<verb><N><noun tail>` against all of `v`.
fn match_verb_label(
    v: &Vec<char>,
    verb: &str,
    noun: &str,
    allow_other: bool,
    allow_plural: bool,
) -> (b: bool)
    requires
        noun_wf(noun@),
    ensures
        b == verb_label_at(v@, verb@, noun@, allow_other, allow_plural),
{
    if !has_lit_at(v, 0, verb) {
        proof {
            if verb_label_at(v@, verb@, noun@, allow_other, allow_plural) {
                let (n1, other, plural, n2, ies) = choose|
                    n1: Seq<char>,
                    other: bool,
                    plural: bool,
                    n2: Seq<char>,
                    ies: bool,
                |
                    label_shape(v@, verb@, noun@, n1, other, plural, n2, ies) && (other
                        ==> allow_other) && (plural ==> allow_plural);
                lemma_label_decompose(v@, verb@, noun@, n1, other, plural, n2, ies);
            }
        }
        return false;
    }
    let l = verb.unicode_len();
    let e1 = scan_digits(v, l);
    proof {
        lemma_digits_run_end_props(v@, l as int);
    }
    if e1 == l {
        proof {
            if verb_label_at(v@, verb@, noun@, allow_other, allow_plural) {
                let (n1, other, plural, n2, ies) = choose|
                    n1: Seq<char>,
                    other: bool,
                    plural: bool,
                    n2: Seq<char>,
                    ies: bool,
                |
                    label_shape(v@, verb@, noun@, n1, other, plural, n2, ies) && (other
                        ==> allow_other) && (plural ==> allow_plural);
                lemma_label_decompose(v@, verb@, noun@, n1, other, plural, n2, ies);
            }
        }
        return false;
    }
    let r = match_noun_tail(v, e1, noun, allow_other, allow_plural);
    proof {
        if r {
            let (other, plural, n2, ies) = choose|
                other: bool,
                plural: bool,
                n2: Seq<char>,
                ies: bool,
            |
                noun_tail_shape(
                    v@.subrange(e1 as int, v@.len() as int),
                    noun@,
                    other,
                    plural,
                    n2,
                    ies,
                ) && (other ==> allow_other) && (plural ==> allow_plural);
            lemma_label_compose(v@, verb@, noun@, e1 as int, other, plural, n2, ies);
        } else {
            if verb_label_at(v@, verb@, noun@, allow_other, allow_plural) {
                let (n1, other, plural, n2, ies) = choose|
                    n1: Seq<char>,
                    other: bool,
                    plural: bool,
                    n2: Seq<char>,
                    ies: bool,
                |
                    label_shape(v@, verb@, noun@, n1, other, plural, n2, ies) && (other
                        ==> allow_other) && (plural ==> allow_plural);
                lemma_label_decompose(v@, verb@, noun@, n1, other, plural, n2, ies);
                assert(noun_tail_shape(
                    v@.subrange(e1 as int, v@.len() as int),
                    noun@,
                    other,
                    plural,
                    n2,
                    ies,
                ));
            }
        }
    }
    r
}

/// The parts of `Created <N> repositor(y|ies)` stand at their positions.
proof fn lemma_create_decompose(s: Seq<char>, n: Seq<char>, ies: bool)
    requires
        create_repository_shape(s, n, ies),
    ensures
        lit_at(s, 0, "Created "@),
        count_repos_shape(s.subrange("Created "@.len() as int, s.len() as int), n, ies),
{
    let l = "Created "@.len() as int;
    let w = repository_word(ies);
    assert(s.len() == l + n.len() + w.len());
    assert(forall|j: int| 0 <= j < s.len() ==> #[trigger] s[j] == ("Created "@ + n + w)[j]);
    assert forall|j: int| 0 <= j < l implies s.subrange(0, l)[j] == "Created "@[j] by {
        assert(s.subrange(0, l)[j] == s[j]);
    }
    assert(s.subrange(0, l) =~= "Created "@);
    let u = s.subrange(l, s.len() as int);
    assert forall|j: int| 0 <= j < u.len() implies u[j] == (n + w)[j] by {
        assert(u[j] == s[l + j]);
    }
    assert(u =~= n + w);
}

/// The converse: `Created ` at the front and a closing count-and-repository
/// piece make up the create-repository label.
proof fn lemma_create_compose(s: Seq<char>, n: Seq<char>, ies: bool)
    requires
        lit_at(s, 0, "Created "@),
        count_repos_shape(s.subrange("Created "@.len() as int, s.len() as int), n, ies),
    ensures
        create_repository_shape(s, n, ies),
{
    let l = "Created "@.len() as int;
    let w = repository_word(ies);
    let u = s.subrange(l, s.len() as int);
    let exp = "Created "@ + n + w;
    assert(u == n + w);
    assert(s.len() == exp.len());
    assert forall|j: int| 0 <= j < s.len() implies s[j] == exp[j] by {
        if j < l {
            assert(s.subrange(0, l)[j] == s[j]);
            assert(exp[j] == "Created "@[j]);
        } else {
            assert(u[j - l] == s[j]);
            assert(exp[j] == (n + w)[j - l]);
        }
    }
    assert(s =~= exp);
}

/// The event categories a normalized label can classify into. `Unknown`
/// entries produce no events and no error.
#[derive(Debug, PartialEq, Eq, Structural, Clone, Copy)]
pub enum EventKind {
    Push,
    CreateRepository,
    PullRequest,
    PullRequestReview,
    Issue,
    Unknown,
}

/// The category of a normalized label: the five patterns are tried in
/// priority order and the first match wins.
pub open spec fn classify_spec(s: Seq<char>) -> EventKind {
    if matches_push(s) {
        EventKind::Push
    } else if matches_create_repository(s) {
        EventKind::CreateRepository
    } else if matches_pull_request(s) {
        EventKind::PullRequest
    } else if matches_pull_request_review(s) {
        EventKind::PullRequestReview
    } else if matches_issue(s) {
        EventKind::Issue
    } else {
        EventKind::Unknown
    }
}

/// Classification priority: a label that matches both the push pattern and
/// the create-repository pattern classifies as `Push`, never as
/// `CreateRepository`.
pub proof fn lemma_classify_push_priority(s: Seq<char>)
    requires
        matches_push(s),
        matches_create_repository(s),
    ensures
        classify_spec(s) == EventKind::Push,
{
}

fn is_push_label(v: &Vec<char>) -> (b: bool)
    ensures
        b == matches_push(v@),
{
    proof {
        reveal_strlit(" commits");
        assert(noun_wf(" commits"@));
    }
    let r = match_verb_label(v, "Created ", " commits", false, false);
    proof {
        if r {
            let (n1, other, plural, n2, ies) = choose|
                n1: Seq<char>,
                other: bool,
                plural: bool,
                n2: Seq<char>,
                ies: bool,
            |
                label_shape(v@, "Created "@, " commits"@, n1, other, plural, n2, ies) && (other
                    ==> false) && (plural ==> false);
            assert(label_shape(v@, "Created "@, " commits"@, n1, false, false, n2, ies));
        } else {
            if matches_push(v@) {
                let (n1, n2, ies) = choose|n1: Seq<char>, n2: Seq<char>, ies: bool|
                    label_shape(v@, "Created "@, " commits"@, n1, false, false, n2, ies);
                assert(verb_label_at(v@, "Created "@, " commits"@, false, false));
            }
        }
    }
    r
}

fn is_create_repository_label(v: &Vec<char>) -> (b: bool)
    ensures
        b == matches_create_repository(v@),
{
    if !has_lit_at(v, 0, "Created ") {
        proof {
            if matches_create_repository(v@) {
                let (n, ies) = choose|n: Seq<char>, ies: bool| create_repository_shape(v@, n, ies);
                lemma_create_decompose(v@, n, ies);
            }
        }
        return false;
    }
    let l = "Created ".unicode_len();
    let r = match_count_repos(v, l);
    proof {
        if r {
            let (n, ies) = choose|n: Seq<char>, ies: bool|
                count_repos_shape(v@.subrange(l as int, v@.len() as int), n, ies);
            lemma_create_compose(v@, n, ies);
        } else {
            if matches_create_repository(v@) {
                let (n, ies) = choose|n: Seq<char>, ies: bool| create_repository_shape(v@, n, ies);
                lemma_create_decompose(v@, n, ies);
            }
        }
    }
    r
}

fn is_pull_request_label(v: &Vec<char>) -> (b: bool)
    ensures
        b == matches_pull_request(v@),
{
    proof {
        reveal_strlit(" pull request");
        assert(noun_wf(" pull request"@));
    }
    let r = match_verb_label(v, "Opened ", " pull request", true, true);
    proof {
        if r {
            let (n1, other, plural, n2, ies) = choose|
                n1: Seq<char>,
                other: bool,
                plural: bool,
                n2: Seq<char>,
                ies: bool,
            |
                label_shape(v@, "Opened "@, " pull request"@, n1, other, plural, n2, ies) && (other
                    ==> true) && (plural ==> true);
            assert(label_shape(v@, "Opened "@, " pull request"@, n1, other, plural, n2, ies));
        } else {
            if matches_pull_request(v@) {
                let (n1, other, plural, n2, ies) = choose|
                    n1: Seq<char>,
                    other: bool,
                    plural: bool,
                    n2: Seq<char>,
                    ies: bool,
                |
                    label_shape(v@, "Opened "@, " pull request"@, n1, other, plural, n2, ies);
                assert(verb_label_at(v@, "Opened "@, " pull request"@, true, true));
            }
        }
    }
    r
}

fn is_pull_request_review_label(v: &Vec<char>) -> (b: bool)
    ensures
        b == matches_pull_request_review(v@),
{
    proof {
        reveal_strlit(" pull request");
        assert(noun_wf(" pull request"@));
    }
    let r = match_verb_label(v, "Reviewed ", " pull request", false, true);
    proof {
        if r {
            let (n1, other, plural, n2, ies) = choose|
                n1: Seq<char>,
                other: bool,
                plural: bool,
                n2: Seq<char>,
                ies: bool,
            |
                label_shape(v@, "Reviewed "@, " pull request"@, n1, other, plural, n2, ies) && (
                other ==> false) && (plural ==> true);
            assert(label_shape(v@, "Reviewed "@, " pull request"@, n1, false, plural, n2, ies));
        } else {
            if matches_pull_request_review(v@) {
                let (n1, plural, n2, ies) = choose|
                    n1: Seq<char>,
                    plural: bool,
                    n2: Seq<char>,
                    ies: bool,
                |
                    label_shape(v@, "Reviewed "@, " pull request"@, n1, false, plural, n2, ies);
                assert(verb_label_at(v@, "Reviewed "@, " pull request"@, false, true));
            }
        }
    }
    r
}

fn is_issue_label(v: &Vec<char>) -> (b: bool)
    ensures
        b == matches_issue(v@),
{
    proof {
        reveal_strlit(" issue");
        assert(noun_wf(" issue"@));
    }
    let r = match_verb_label(v, "Opened ", " issue", true, true);
    proof {
        if r {
            let (n1, other, plural, n2, ies) = choose|
                n1: Seq<char>,
                other: bool,
                plural: bool,
                n2: Seq<char>,
                ies: bool,
            |
                label_shape(v@, "Opened "@, " issue"@, n1, other, plural, n2, ies) && (other
                    ==> true) && (plural ==> true);
            assert(label_shape(v@, "Opened "@, " issue"@, n1, other, plural, n2, ies));
        } else {
            if matches_issue(v@) {
                let (n1, other, plural, n2, ies) = choose|
                    n1: Seq<char>,
                    other: bool,
                    plural: bool,
                    n2: Seq<char>,
                    ies: bool,
                |
                    label_shape(v@, "Opened "@, " issue"@, n1, other, plural, n2, ies);
                assert(verb_label_at(v@, "Opened "@, " issue"@, true, true));
            }
        }
    }
    r
}

/// The category of a normalized label (executable form): the five patterns
/// in priority order, first match wins.
pub fn classify(label: &str) -> (k: EventKind)
    ensures
        k == classify_spec(label@),
{
    let v = chars_of(label);
    if is_push_label(&v) {
        EventKind::Push
    } else if is_create_repository_label(&v) {
        EventKind::CreateRepository
    } else if is_pull_request_label(&v) {
        EventKind::PullRequest
    } else if is_pull_request_review_label(&v) {
        EventKind::PullRequestReview
    } else if is_issue_label(&v) {
        EventKind::Issue
    } else {
        EventKind::Unknown
    }
}

/// The characters of `v` from `a` (inclusive) to `b` (exclusive).
fn slice_chars(v: &Vec<char>, a: usize, b: usize) -> (r: Vec<char>)
    requires
        a <= b <= v@.len(),
    ensures
        r@ == v@.subrange(a as int, b as int),
{
    let mut r: Vec<char> = Vec::new();
    let mut i: usize = a;
    while i < b
        invariant
            a <= i <= b <= v@.len(),
            r@ == v@.subrange(a as int, i as int),
        decreases b - i,
    {
        r.push(v[i]);
        i = i + 1;
        assert(r@ =~= v@.subrange(a as int, i as int));
    }
    r
}

} // verus!
