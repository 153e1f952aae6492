//! The path sanitizer: registry-relative paths are reduced to their normal
//! named segments so that nothing a catalog declares can escape the
//! workspace root.
//!
//! Paths are plain slash-separated strings here; splitting, filtering and
//! joining are specified over `Seq<char>`.

use vstd::prelude::*;

use crate::text::{chars_of, string_from_chars};

verus! {

broadcast use vstd::seq_lib::group_filter_ensures;

/// The predicate selecting path segments that survive sanitizing.
pub open spec fn keep_pred() -> spec_fn(Seq<char>) -> bool {
    |seg: Seq<char>| keep_segment(seg)
}

/// `s` split on `sep`: always one more segment than separators, in order.
pub open spec fn split_on(s: Seq<char>, sep: char) -> Seq<Seq<char>>
    decreases s.len(),
{
    if s.len() == 0 {
        seq![Seq::<char>::empty()]
    } else {
        let rest = split_on(s.drop_first(), sep);
        if s[0] == sep {
            seq![Seq::<char>::empty()] + rest
        } else {
            seq![seq![s[0]] + rest[0]] + rest.drop_first()
        }
    }
}

pub broadcast proof fn lemma_split_on_nonempty(s: Seq<char>, sep: char)
    ensures
        (#[trigger] split_on(s, sep)).len() >= 1,
    decreases s.len(),
{
    if s.len() > 0 {
        lemma_split_on_nonempty(s.drop_first(), sep);
    }
}

/// No segment produced by splitting contains the separator.
pub broadcast proof fn lemma_split_on_no_sep(s: Seq<char>, sep: char)
    ensures
        forall|i: int, k: int|
            0 <= i < (#[trigger] split_on(s, sep)).len() && 0 <= k < split_on(s, sep)[i].len()
                ==> split_on(s, sep)[i][k] != sep,
    decreases s.len(),
{
    if s.len() > 0 {
        lemma_split_on_no_sep(s.drop_first(), sep);
        lemma_split_on_nonempty(s.drop_first(), sep);
    }
}

/// Appending one character extends the last segment, or starts a new one.
pub proof fn lemma_split_on_push(s: Seq<char>, sep: char, c: char)
    ensures
        c == sep ==> split_on(s.push(c), sep) == split_on(s, sep).push(Seq::<char>::empty()),
        c != sep ==> split_on(s.push(c), sep) == split_on(s, sep).update(
            split_on(s, sep).len() - 1,
            split_on(s, sep).last().push(c),
        ),
    decreases s.len(),
{
    lemma_split_on_nonempty(s, sep);
    if s.len() == 0 {
        if c == sep {
            assert(s.push(c).drop_first() =~= s);
            assert(split_on(s.push(c), sep) =~= split_on(s, sep).push(Seq::<char>::empty()));
        } else {
            assert(s.push(c).drop_first() =~= s);
            assert(seq![s.push(c)[0]] + split_on(s, sep)[0] =~= seq![c]);
            assert(split_on(s.push(c), sep) =~= split_on(s, sep).update(
                0,
                split_on(s, sep).last().push(c),
            ));
        }
    } else {
        let t = s.drop_first();
        lemma_split_on_nonempty(t, sep);
        lemma_split_on_push(t, sep, c);
        assert(s.push(c).drop_first() =~= t.push(c));
        let rest = split_on(t, sep);
        let restp = split_on(t.push(c), sep);
        if c == sep {
            assert(restp == rest.push(Seq::<char>::empty()));
            if s[0] == sep {
                assert(split_on(s.push(c), sep) =~= split_on(s, sep).push(
                    Seq::<char>::empty(),
                ));
            } else {
                assert(restp[0] == rest[0]);
                assert(restp.drop_first() =~= rest.drop_first().push(Seq::<char>::empty()));
                assert(split_on(s.push(c), sep) =~= split_on(s, sep).push(
                    Seq::<char>::empty(),
                ));
            }
        } else {
            assert(restp == rest.update(rest.len() - 1, rest.last().push(c)));
            if s[0] == sep {
                assert(split_on(s.push(c), sep) =~= split_on(s, sep).update(
                    split_on(s, sep).len() - 1,
                    split_on(s, sep).last().push(c),
                ));
            } else {
                if rest.len() == 1 {
                    assert(restp[0] == rest[0].push(c));
                    assert(seq![s.push(c)[0]] + restp[0] =~= (seq![s[0]] + rest[0]).push(c));
                    assert(split_on(s.push(c), sep) =~= split_on(s, sep).update(
                        split_on(s, sep).len() - 1,
                        split_on(s, sep).last().push(c),
                    ));
                } else {
                    assert(restp[0] == rest[0]);
                    assert(seq![s.push(c)[0]] + restp[0] =~= seq![s[0]] + rest[0]);
                    assert(restp.drop_first() =~= rest.drop_first().update(
                        rest.drop_first().len() - 1,
                        rest.drop_first().last().push(c),
                    ));
                    assert(split_on(s.push(c), sep) =~= split_on(s, sep).update(
                        split_on(s, sep).len() - 1,
                        split_on(s, sep).last().push(c),
                    ));
                }
            }
        }
    }
}

/// Splitting distributes over a separator-joined concatenation.
pub proof fn lemma_split_on_concat(a: Seq<char>, b: Seq<char>, sep: char)
    ensures
        split_on(a + seq![sep] + b, sep) == split_on(a, sep) + split_on(b, sep),
    decreases a.len(),
{
    lemma_split_on_nonempty(a, sep);
    lemma_split_on_nonempty(b, sep);
    if a.len() == 0 {
        assert((a + seq![sep] + b).drop_first() =~= b);
        assert((a + seq![sep] + b)[0] == sep);
        assert(split_on(a + seq![sep] + b, sep) =~= split_on(a, sep) + split_on(b, sep));
    } else {
        let t = a.drop_first();
        lemma_split_on_nonempty(t, sep);
        lemma_split_on_concat(t, b, sep);
        assert((a + seq![sep] + b).drop_first() =~= t + seq![sep] + b);
        let restc = split_on(t + seq![sep] + b, sep);
        let rest = split_on(t, sep);
        assert(restc == rest + split_on(b, sep));
        if a[0] == sep {
            assert(split_on(a + seq![sep] + b, sep) =~= split_on(a, sep) + split_on(b, sep));
        } else {
            assert(restc[0] == rest[0]);
            assert(restc.drop_first() =~= rest.drop_first() + split_on(b, sep));
            assert(seq![(a + seq![sep] + b)[0]] + restc[0] =~= seq![a[0]] + rest[0]);
            assert(split_on(a + seq![sep] + b, sep) =~= split_on(a, sep) + split_on(b, sep));
        }
    }
}

/// Segments joined back with the separator between them.
pub open spec fn join_with(segs: Seq<Seq<char>>, sep: char) -> Seq<char>
    decreases segs.len(),
{
    if segs.len() == 0 {
        Seq::<char>::empty()
    } else if segs.len() == 1 {
        segs[0]
    } else {
        segs[0] + seq![sep] + join_with(segs.drop_first(), sep)
    }
}

pub proof fn lemma_join_with_push(segs: Seq<Seq<char>>, sep: char, seg: Seq<char>)
    ensures
        segs.len() == 0 ==> join_with(segs.push(seg), sep) == seg,
        segs.len() > 0 ==> join_with(segs.push(seg), sep) == join_with(segs, sep) + seq![sep]
            + seg,
    decreases segs.len(),
{
    if segs.len() == 0 {
        assert(segs.push(seg)[0] == seg);
    } else if segs.len() == 1 {
        assert(segs.push(seg).drop_first() =~= seq![seg]);
        assert(join_with(seq![seg], sep) == seg);
        assert(segs.push(seg)[0] == segs[0]);
        assert(join_with(segs.push(seg), sep) == segs[0] + seq![sep] + seg);
        assert(join_with(segs, sep) == segs[0]);
    } else {
        lemma_join_with_push(segs.drop_first(), sep, seg);
        assert(segs.push(seg).drop_first() =~= segs.drop_first().push(seg));
        assert(join_with(segs.push(seg), sep) =~= join_with(segs, sep) + seq![sep] + seg);
    }
}

/// Splitting a join of separator-free segments recovers the segments.
pub proof fn lemma_split_join(segs: Seq<Seq<char>>, sep: char)
    requires
        segs.len() >= 1,
        forall|i: int, k: int|
            0 <= i < segs.len() && 0 <= k < segs[i].len() ==> segs[i][k] != sep,
    ensures
        split_on(join_with(segs, sep), sep) == segs,
    decreases segs.len(),
{
    if segs.len() == 1 {
        lemma_split_single(segs[0], sep);
        assert(split_on(join_with(segs, sep), sep) =~= segs);
    } else {
        lemma_split_join(segs.drop_first(), sep);
        lemma_split_on_concat(segs[0], join_with(segs.drop_first(), sep), sep);
        lemma_split_single(segs[0], sep);
        assert(split_on(join_with(segs, sep), sep) =~= segs);
    }
}

/// A separator-free sequence splits into itself alone.
pub proof fn lemma_split_single(s: Seq<char>, sep: char)
    requires
        forall|k: int| 0 <= k < s.len() ==> s[k] != sep,
    ensures
        split_on(s, sep) == seq![s],
    decreases s.len(),
{
    if s.len() == 0 {
        assert(split_on(s, sep) =~~= seq![s]);
    } else {
        lemma_split_single(s.drop_first(), sep);
        assert(seq![s[0]] + s.drop_first() =~= s);
        assert(split_on(s, sep) =~~= seq![s]);
    }
}

/// A path segment that survives sanitizing: named, not a current- or
/// parent-directory reference, not empty (so no absolute-root marker).
pub open spec fn keep_segment(seg: Seq<char>) -> bool {
    seg.len() > 0 && seg != seq!['.'] && seg != seq!['.', '.']
}

/// The sanitized form of a relative path: its kept segments, re-joined.
pub open spec fn spec_sanitize(s: Seq<char>) -> Seq<char> {
    join_with(split_on(s, '/').filter(keep_pred()), '/')
}

/// Strips any path component that is a parent-directory reference, a
/// current-directory reference, an absolute-root marker or an empty
/// segment, keeping the named segments in order.
pub fn sanitize_relative_path(path: &str) -> (r: String)
    ensures
        r@ == spec_sanitize(path@),
{
    let chars = chars_of(path);
    let n = chars.len();
    let mut out: Vec<char> = Vec::new();
    let mut cur: Vec<char> = Vec::new();
    let ghost mut done: Seq<Seq<char>> = Seq::empty();
    let mut any_kept: bool = false;
    let mut i: usize = 0;
    proof {
        assert(split_on(chars@.subrange(0, 0), '/') =~= seq![Seq::<char>::empty()]);
        assert(Seq::<Seq<char>>::empty().push(Seq::<char>::empty()) =~= seq![
            Seq::<char>::empty(),
        ]);
        assert(done.filter(keep_pred()) =~= Seq::<Seq<char>>::empty());
    }
    while i < n
        invariant
            n == chars@.len(),
            i <= n,
            split_on(chars@.subrange(0, i as int), '/') == done.push(cur@),
            out@ == join_with(done.filter(keep_pred()), '/'),
            any_kept == (done.filter(keep_pred()).len() > 0),
        decreases n - i,
    {
        let c = chars[i];
        proof {
            assert(chars@.subrange(0, i + 1 as int) =~= chars@.subrange(0, i as int).push(c));
            lemma_split_on_push(chars@.subrange(0, i as int), '/', c);
        }
        if c == '/' {
            // close the current segment
            let flush = keep_current(&cur);
            proof {
                done.lemma_filter_push(cur@, keep_pred());
            }
            if flush {
                if any_kept {
                    out.push('/');
                }
                crate::text::push_chars(&mut out, &cur);
                proof {
                    lemma_join_with_push(done.filter(keep_pred()), '/', cur@);
                }
                any_kept = true;
            }
            proof {
                done = done.push(cur@);
                assert(done.push(Seq::<char>::empty()) =~= split_on(
                    chars@.subrange(0, i + 1 as int),
                    '/',
                ));
            }
            cur = Vec::new();
        } else {
            cur.push(c);
            proof {
                let prev = split_on(chars@.subrange(0, i as int), '/');
                assert(prev.update(prev.len() - 1, prev.last().push(c)) =~= done.push(cur@));
            }
        }
        i = i + 1;
    }
    // close the final segment
    let flush = keep_current(&cur);
    proof {
        assert(chars@.subrange(0, n as int) =~= chars@);
        done.lemma_filter_push(cur@, keep_pred());
    }
    if flush {
        if any_kept {
            out.push('/');
        }
        crate::text::push_chars(&mut out, &cur);
        proof {
            lemma_join_with_push(done.filter(keep_pred()), '/', cur@);
        }
    }
    string_from_chars(&out)
}

/// Whether the segment collected so far survives sanitizing.
fn keep_current(cur: &Vec<char>) -> (r: bool)
    ensures
        r == keep_segment(cur@),
{
    if cur.len() == 0 {
        proof {
            assert(!keep_segment(cur@));
        }
        false
    } else if cur.len() == 1 && cur[0] == '.' {
        proof {
            assert(cur@ =~= seq!['.']);
        }
        false
    } else if cur.len() == 2 && cur[0] == '.' && cur[1] == '.' {
        proof {
            assert(cur@ =~= seq!['.', '.']);
        }
        false
    } else {
        proof {
            if cur@ == seq!['.'] {
                assert(cur@.len() == 1 && cur@[0] == '.');
            }
            if cur@ == seq!['.', '.'] {
                assert(cur@.len() == 2 && cur@[0] == '.' && cur@[1] == '.');
            }
        }
        true
    }
}

/// The configured path resolved under the workspace root: an empty sanitized
/// result yields the root itself.
pub open spec fn spec_workspace_path(root: Seq<char>, configured: Seq<char>) -> Seq<char> {
    let rel = spec_sanitize(configured);
    if rel.len() == 0 {
        root
    } else {
        root + seq!['/'] + rel
    }
}

/// Sanitizes the configured relative path and joins it under `root`.
pub fn workspace_path(workspace_root: &str, configured: &str) -> (r: String)
    ensures
        r@ == spec_workspace_path(workspace_root@, configured@),
{
    let rel = sanitize_relative_path(configured);
    if rel.unicode_len() == 0 {
        let root_chars = chars_of(workspace_root);
        string_from_chars(&root_chars)
    } else {
        let mut out = chars_of(workspace_root);
        out.push('/');
        let rel_chars = chars_of(rel.as_str());
        crate::text::push_chars(&mut out, &rel_chars);
        proof {
            assert(out@ =~= workspace_root@ + seq!['/'] + rel@);
        }
        string_from_chars(&out)
    }
}

/// Filtered elements come from the original sequence.
pub proof fn lemma_filter_subset_pub(s: Seq<Seq<char>>, pred: spec_fn(Seq<char>) -> bool, i: int)
    requires
        0 <= i < s.filter(pred).len(),
    ensures
        s.contains(s.filter(pred)[i]),
    decreases s.len(),
{
    reveal(Seq::filter);
    if s.len() > 0 {
        if pred(s.last()) && i == s.filter(pred).len() - 1 {
            assert(s.filter(pred)[i] == s.last());
        } else {
            lemma_filter_subset_pub(s.drop_last(), pred, i);
            assert(s.drop_last().contains(s.drop_last().filter(pred)[i]));
            let j = choose|j: int| 0 <= j < s.drop_last().len() && s.drop_last()[j] == s.drop_last().filter(pred)[i];
            assert(s[j] == s.filter(pred)[i]);
        }
    }
}

/// Every segment of a sanitized path is kept (named, not a dot or parent
/// reference), and the sanitized path contains no separator run that
/// would create an empty segment.
pub proof fn lemma_sanitize_kept_and_clean(s: Seq<char>)
    ensures
        forall|i: int|
            0 <= i < split_on(#[trigger] spec_sanitize(s), '/').len() ==> keep_segment(
                split_on(spec_sanitize(s), '/')[i],
            ) || spec_sanitize(s).len() == 0,
        split_on(spec_sanitize(s), '/') == split_on(s, '/').filter(keep_pred())
            || spec_sanitize(s).len() == 0,
{
    let keep = keep_pred();
    let all = split_on(s, '/');
    let segs = all.filter(keep);
    lemma_split_on_no_sep(s, '/');
    assert(forall|i: int| 0 <= i < segs.len() ==> keep(#[trigger] segs[i]));
    if segs.len() >= 1 {
        assert forall|i: int, k: int|
            0 <= i < segs.len() && 0 <= k < segs[i].len() implies segs[i][k] != '/' by {
            assert(all.contains(segs[i])) by {
                lemma_filter_subset_pub(all, keep, i);
            }
            let j = choose|j: int| 0 <= j < all.len() && all[j] == segs[i];
            assert(all[j][k] != '/');
        }
        lemma_split_join(segs, '/');
        assert(keep(segs[0]));
        assert(segs[0].len() > 0);
        lemma_join_with_nonempty(segs, '/');
    } else {
        assert(spec_sanitize(s).len() == 0);
    }
}

/// Joining at least one non-empty segment yields non-empty text.
proof fn lemma_join_with_nonempty(segs: Seq<Seq<char>>, sep: char)
    requires
        segs.len() >= 1,
        segs[0].len() > 0,
    ensures
        join_with(segs, sep).len() > 0,
{
}

/// Every character of every split piece is a character of the input.
pub proof fn lemma_split_on_chars_subset(s: Seq<char>, sep: char)
    ensures
        forall|i: int, k: int|
            0 <= i < split_on(s, sep).len() && 0 <= k < split_on(s, sep)[i].len() ==> exists|j: int|
                0 <= j < s.len() && s[j] == #[trigger] split_on(s, sep)[i][k],
    decreases s.len(),
{
    if s.len() > 0 {
        lemma_split_on_chars_subset(s.drop_first(), sep);
        lemma_split_on_nonempty(s.drop_first(), sep);
        let rest = split_on(s.drop_first(), sep);
        assert forall|i: int, k: int|
            0 <= i < split_on(s, sep).len() && 0 <= k < split_on(s, sep)[i].len() implies exists|
        j: int|
            0 <= j < s.len() && s[j] == #[trigger] split_on(s, sep)[i][k] by {
            if s[0] == sep {
                if i > 0 {
                    assert(split_on(s, sep)[i] == rest[i - 1]);
                    let j = choose|j: int|
                        0 <= j < s.drop_first().len() && s.drop_first()[j] == rest[i - 1][k];
                    assert(s[j + 1] == split_on(s, sep)[i][k]);
                }
            } else {
                if i == 0 {
                    if k == 0 {
                        assert(split_on(s, sep)[0][0] == s[0]);
                    } else {
                        assert(split_on(s, sep)[0][k] == rest[0][k - 1]);
                        let j = choose|j: int|
                            0 <= j < s.drop_first().len() && s.drop_first()[j] == rest[0][k - 1];
                        assert(s[j + 1] == split_on(s, sep)[i][k]);
                    }
                } else {
                    assert(split_on(s, sep)[i] == rest.drop_first()[i - 1]);
                    assert(rest.drop_first()[i - 1] == rest[i]);
                    let j = choose|j: int|
                        0 <= j < s.drop_first().len() && s.drop_first()[j] == rest[i][k];
                    assert(s[j + 1] == split_on(s, sep)[i][k]);
                }
            }
        }
    }
}

} // verus!
