//! Character-level text utilities shared by the path sanitizer, the version
//! checker, the barrel renderer and the stylesheet merger.
//!
//! Strings are modelled by their `Seq<char>` views; executable code walks
//! characters with the vstd string primitives and builds results out of
//! `Vec<char>` buffers.

use vstd::prelude::*;

verus! {

/// Relies on `String::from_iter` over `char`s (via `Iterator::collect`):
/// the resulting string holds exactly the given characters in order.
#[verifier::external_body]
pub fn string_from_chars(chars: &Vec<char>) -> (r: String)
    ensures
        r@ == chars@,
{
    chars.iter().collect()
}

/// The characters of a string, in order.
pub fn chars_of(s: &str) -> (r: Vec<char>)
    ensures
        r@ == s@,
{
    let n = s.unicode_len();
    let mut out: Vec<char> = Vec::new();
    let mut i: usize = 0;
    while i < n
        invariant
            n == s@.len(),
            i <= n,
            out@ == s@.subrange(0, i as int),
        decreases n - i,
    {
        out.push(s.get_char(i));
        proof {
            assert(out@ =~= s@.subrange(0, i + 1 as int));
        }
        i = i + 1;
    }
    proof {
        assert(out@ =~= s@);
    }
    out
}

/// ASCII whitespace, the class stripped by the trimming helpers.
pub open spec fn spec_is_space(c: char) -> bool {
    c == ' ' || c == '\t' || c == '\n' || c == '\r'
}

#[verifier::when_used_as_spec(spec_is_space)]
pub fn is_space(c: char) -> (r: bool)
    ensures
        r == spec_is_space(c),
{
    c == ' ' || c == '\t' || c == '\n' || c == '\r'
}

/// A decimal digit.
pub open spec fn spec_is_digit(c: char) -> bool {
    '0' <= c && c <= '9'
}

#[verifier::when_used_as_spec(spec_is_digit)]
pub fn is_digit(c: char) -> (r: bool)
    ensures
        r == spec_is_digit(c),
{
    '0' <= c && c <= '9'
}

/// An ASCII letter or digit.
pub open spec fn spec_is_alnum(c: char) -> bool {
    ('0' <= c && c <= '9') || ('a' <= c && c <= 'z') || ('A' <= c && c <= 'Z')
}

#[verifier::when_used_as_spec(spec_is_alnum)]
pub fn is_alnum(c: char) -> (r: bool)
    ensures
        r == spec_is_alnum(c),
{
    ('0' <= c && c <= '9') || ('a' <= c && c <= 'z') || ('A' <= c && c <= 'Z')
}

/// Lower-case ASCII letters mapped to upper case; everything else unchanged.
pub open spec fn spec_upper(c: char) -> char {
    if 'a' <= c && c <= 'z' {
        ((c as u8) - 32) as char
    } else {
        c
    }
}

#[verifier::when_used_as_spec(spec_upper)]
pub fn upper(c: char) -> (r: char)
    ensures
        r == spec_upper(c),
{
    if 'a' <= c && c <= 'z' {
        let b: u8 = c as u8;
        ((b - 32) as char)
    } else {
        c
    }
}

/// The suffix of `s` after dropping leading ASCII whitespace.
pub open spec fn spec_trim_start(s: Seq<char>) -> Seq<char>
    decreases s.len(),
{
    if s.len() == 0 {
        s
    } else if spec_is_space(s[0]) {
        spec_trim_start(s.drop_first())
    } else {
        s
    }
}

/// The prefix of `s` before trailing ASCII whitespace.
pub open spec fn spec_trim_end(s: Seq<char>) -> Seq<char>
    decreases s.len(),
{
    if s.len() == 0 {
        s
    } else if spec_is_space(s[s.len() - 1]) {
        spec_trim_end(s.drop_last())
    } else {
        s
    }
}

/// `s` with leading and trailing ASCII whitespace removed.
pub open spec fn spec_trim(s: Seq<char>) -> Seq<char> {
    spec_trim_end(spec_trim_start(s))
}

proof fn lemma_trim_start_subrange(s: Seq<char>, i: int)
    requires
        0 <= i <= s.len(),
        forall|k: int| 0 <= k < i ==> spec_is_space(s[k]),
    ensures
        spec_trim_start(s) == spec_trim_start(s.subrange(i, s.len() as int)),
    decreases i,
{
    if i > 0 {
        assert(spec_is_space(s[0]));
        assert(s.len() > 0);
        let t = s.drop_first();
        assert(spec_trim_start(s) == spec_trim_start(t));
        assert(forall|k: int| 0 <= k < i - 1 ==> spec_is_space(t[k]));
        lemma_trim_start_subrange(t, i - 1);
        assert(t.subrange(i - 1, t.len() as int) =~= s.subrange(i, s.len() as int));
    } else {
        assert(s.subrange(0, s.len() as int) =~= s);
    }
}

proof fn lemma_trim_end_subrange(s: Seq<char>, j: int)
    requires
        0 <= j <= s.len(),
        forall|k: int| j <= k < s.len() ==> spec_is_space(s[k]),
    ensures
        spec_trim_end(s) == spec_trim_end(s.subrange(0, j)),
    decreases s.len() - j,
{
    if j < s.len() {
        assert(spec_is_space(s[s.len() - 1]));
        let t = s.drop_last();
        assert(spec_trim_end(s) == spec_trim_end(t));
        assert(forall|k: int| j <= k < t.len() ==> spec_is_space(t[k]));
        lemma_trim_end_subrange(t, j);
        assert(t.subrange(0, j) =~= s.subrange(0, j));
    } else {
        assert(s.subrange(0, s.len() as int) =~= s);
    }
}

/// The trimmed middle of a character buffer.
pub fn trim_chars(s: &Vec<char>) -> (r: Vec<char>)
    ensures
        r@ == spec_trim(s@),
{
    let n = s.len();
    let mut start: usize = 0;
    while start < n && is_space(s[start])
        invariant
            n == s@.len(),
            start <= n,
            forall|k: int| 0 <= k < start ==> spec_is_space(s@[k]),
        decreases n - start,
    {
        start = start + 1;
    }
    let mut end: usize = n;
    while end > start && is_space(s[end - 1])
        invariant
            n == s@.len(),
            start <= end <= n,
            forall|k: int| 0 <= k < start ==> spec_is_space(s@[k]),
            forall|k: int| end <= k < n ==> spec_is_space(s@[k]),
        decreases end,
    {
        end = end - 1;
    }
    let mut out: Vec<char> = Vec::new();
    let mut i: usize = start;
    while i < end
        invariant
            start <= i <= end <= n,
            n == s@.len(),
            out@ == s@.subrange(start as int, i as int),
        decreases end - i,
    {
        out.push(s[i]);
        proof {
            assert(out@ =~= s@.subrange(start as int, i + 1 as int));
        }
        i = i + 1;
    }
    proof {
        lemma_trim_start_subrange(s@, start as int);
        let mid = s@.subrange(start as int, n as int);
        if start < end {
            assert(!spec_is_space(s@[start as int]));
            assert(!spec_is_space(mid[0]));
            assert(spec_trim_start(mid) == mid);
            assert(forall|k: int| end - start <= k < mid.len() ==> spec_is_space(mid[k]));
            lemma_trim_end_subrange(mid, end - start);
            assert(mid.subrange(0, end - start) =~= s@.subrange(start as int, end as int));
            assert(out@ =~= s@.subrange(start as int, end as int));
        } else {
            // everything is whitespace
            assert(start == end);
            if start < n {
                assert(!spec_is_space(s@[start as int]));
                assert(spec_is_space(s@[start as int]));
            }
            assert(start == n);
            assert(mid =~= Seq::<char>::empty());
            assert(spec_trim_start(mid) == mid);
            assert(spec_trim_end(mid) == mid);
            assert(out@ =~= mid);
        }
    }
    out
}

/// Pointwise equality of two character buffers, hence of their views.
pub fn chars_eq(a: &Vec<char>, b: &Vec<char>) -> (r: bool)
    ensures
        r == (a@ == b@),
{
    if a.len() != b.len() {
        return false;
    }
    let n = a.len();
    let mut i: usize = 0;
    while i < n
        invariant
            n == a@.len() && n == b@.len(),
            i <= n,
            forall|k: int| 0 <= k < i ==> a@[k] == b@[k],
        decreases n - i,
    {
        if a[i] != b[i] {
            return false;
        }
        i = i + 1;
    }
    proof {
        assert(a@ =~= b@);
    }
    true
}

/// `pat` occurs in `s` at position `i`.
pub open spec fn match_at(s: Seq<char>, pat: Seq<char>, i: int) -> bool {
    0 <= i && i + pat.len() <= s.len() && s.subrange(i, i + pat.len()) == pat
}

/// Whether `pat` occurs at position `i` of `s`.
pub fn starts_with_at(s: &Vec<char>, pat: &Vec<char>, i: usize) -> (r: bool)
    requires
        i <= s@.len(),
    ensures
        r == match_at(s@, pat@, i as int),
{
    let n = s.len();
    if pat.len() > n - i {
        return false;
    }
    let m = pat.len();
    let mut k: usize = 0;
    while k < m
        invariant
            m == pat@.len(),
            n == s@.len(),
            i + m <= n,
            k <= m,
            forall|j: int| 0 <= j < k ==> s@[i + j] == pat@[j],
        decreases m - k,
    {
        if s[i + k] != pat[k] {
            proof {
                assert(s@.subrange(i as int, i + m) != pat@) by {
                    assert(s@.subrange(i as int, i + m)[k as int] != pat@[k as int]);
                }
            }
            return false;
        }
        k = k + 1;
    }
    proof {
        assert(s@.subrange(i as int, i + m) =~= pat@);
    }
    true
}

/// The first occurrence of `pat` in `s` at or after `from`, if any.
pub fn find_sub_from(s: &Vec<char>, pat: &Vec<char>, from: usize) -> (r: Option<usize>)
    requires
        from <= s@.len(),
    ensures
        match r {
            Some(i) => {
                &&& from <= i
                &&& match_at(s@, pat@, i as int)
                &&& forall|j: int| from <= j < i ==> !match_at(s@, pat@, j)
            },
            None => forall|j: int| from <= j ==> !match_at(s@, pat@, j),
        },
{
    let n = s.len();
    if pat.len() > n - from {
        return None;
    }
    let limit = n - pat.len();
    let mut i: usize = from;
    loop
        invariant
            n == s@.len(),
            from <= i <= limit,
            limit == n - pat@.len(),
            forall|j: int| from <= j < i ==> !match_at(s@, pat@, j),
        decreases limit - i,
    {
        if starts_with_at(s, pat, i) {
            return Some(i);
        }
        if i == limit {
            return None;
        }
        i = i + 1;
    }
}

/// The first occurrence of character `c` in `s` at or after `from`, if any.
pub fn find_char_from(s: &Vec<char>, c: char, from: usize) -> (r: Option<usize>)
    requires
        from <= s@.len(),
    ensures
        match r {
            Some(i) => {
                &&& from <= i < s@.len()
                &&& s@[i as int] == c
                &&& forall|j: int| from <= j < i ==> s@[j] != c
            },
            None => forall|j: int| from <= j < s@.len() ==> s@[j] != c,
        },
{
    let n = s.len();
    let mut i: usize = from;
    while i < n
        invariant
            n == s@.len(),
            from <= i <= n,
            forall|j: int| from <= j < i ==> s@[j] != c,
        decreases n - i,
    {
        if s[i] == c {
            return Some(i);
        }
        i = i + 1;
    }
    None
}

/// The last occurrence of character `c` in `s`, if any.
pub fn rfind_char(s: &Vec<char>, c: char) -> (r: Option<usize>)
    ensures
        match r {
            Some(i) => {
                &&& i < s@.len()
                &&& s@[i as int] == c
                &&& forall|j: int| i < j < s@.len() ==> s@[j] != c
            },
            None => forall|j: int| 0 <= j < s@.len() ==> s@[j] != c,
        },
{
    let mut i: usize = s.len();
    while i > 0
        invariant
            i <= s@.len(),
            forall|j: int| i <= j < s@.len() ==> s@[j] != c,
        decreases i,
    {
        i = i - 1;
        if s[i] == c {
            return Some(i);
        }
    }
    None
}

/// A copy of `s[from..to]`.
pub fn sub_chars(s: &Vec<char>, from: usize, to: usize) -> (r: Vec<char>)
    requires
        from <= to <= s@.len(),
    ensures
        r@ == s@.subrange(from as int, to as int),
{
    let mut out: Vec<char> = Vec::new();
    let mut i: usize = from;
    while i < to
        invariant
            from <= i <= to <= s@.len(),
            out@ == s@.subrange(from as int, i as int),
        decreases to - i,
    {
        out.push(s[i]);
        proof {
            assert(out@ =~= s@.subrange(from as int, i + 1 as int));
        }
        i = i + 1;
    }
    out
}

/// Append every character of `src` to `dst`.
pub fn push_chars(dst: &mut Vec<char>, src: &Vec<char>)
    ensures
        final(dst)@ == old(dst)@ + src@,
{
    let n = src.len();
    let mut i: usize = 0;
    while i < n
        invariant
            n == src@.len(),
            i <= n,
            dst@ == old(dst)@ + src@.subrange(0, i as int),
        decreases n - i,
    {
        dst.push(src[i]);
        proof {
            assert(old(dst)@ + src@.subrange(0, i + 1 as int) =~= (old(dst)@ + src@.subrange(
                0,
                i as int,
            )).push(src@[i as int]));
        }
        i = i + 1;
    }
    proof {
        assert(src@.subrange(0, n as int) =~= src@);
    }
}

/// An element-wise copy of a vector of strings, equal to the original.
pub fn clone_strings(v: &Vec<String>) -> (r: Vec<String>)
    ensures
        r@ == v@,
{
    let n = v.len();
    let mut out: Vec<String> = Vec::new();
    let mut i: usize = 0;
    while i < n
        invariant
            n == v@.len(),
            i <= n,
            out@ == v@.subrange(0, i as int),
        decreases n - i,
    {
        out.push(v[i].clone());
        proof {
            assert(out@ =~= v@.subrange(0, i + 1 as int));
        }
        i = i + 1;
    }
    proof {
        assert(out@ =~= v@);
    }
    out
}

/// An equal copy of an optional string.
pub fn clone_opt_string(v: &Option<String>) -> (r: Option<String>)
    ensures
        r == *v,
{
    match v {
        Some(s) => Some(s.clone()),
        None => None,
    }
}

/// Append every character of the string `src` to `dst`.
pub fn push_str_chars(dst: &mut Vec<char>, src: &str)
    ensures
        final(dst)@ == old(dst)@ + src@,
{
    let v = chars_of(src);
    push_chars(dst, &v);
}

/// Pointwise equality of two byte buffers, hence of their views.
pub fn bytes_eq(a: &Vec<u8>, b: &Vec<u8>) -> (r: bool)
    ensures
        r == (a@ == b@),
{
    if a.len() != b.len() {
        return false;
    }
    let n = a.len();
    let mut i: usize = 0;
    while i < n
        invariant
            n == a@.len() && n == b@.len(),
            i <= n,
            forall|k: int| 0 <= k < i ==> a@[k] == b@[k],
        decreases n - i,
    {
        if a[i] != b[i] {
            return false;
        }
        i = i + 1;
    }
    proof {
        assert(a@ =~= b@);
    }
    true
}

/// A copy of a byte buffer with the same contents.
pub fn clone_bytes(v: &Vec<u8>) -> (r: Vec<u8>)
    ensures
        r@ == v@,
{
    let n = v.len();
    let mut out: Vec<u8> = Vec::new();
    let mut i: usize = 0;
    while i < n
        invariant
            n == v@.len(),
            i <= n,
            out@ == v@.subrange(0, i as int),
        decreases n - i,
    {
        out.push(v[i]);
        proof {
            assert(out@ =~= v@.subrange(0, i + 1 as int));
        }
        i = i + 1;
    }
    proof {
        assert(out@ =~= v@);
    }
    out
}

/// Relies on `core::str::from_utf8`: succeeds exactly on valid UTF-8.
#[verifier::external_body]
pub fn utf8_ok(bytes: &Vec<u8>) -> (r: bool)
    ensures
        r == vstd::utf8::valid_utf8(bytes@),
{
    core::str::from_utf8(bytes.as_slice()).is_ok()
}

/// Relies on `String::from_utf8`: succeeds exactly on valid UTF-8 and
/// decodes it, so that re-encoding the result gives the input back.
#[verifier::external_body]
pub fn string_from_utf8(bytes: Vec<u8>) -> (r: Option<String>)
    ensures
        r is Some <==> vstd::utf8::valid_utf8(bytes@),
        r matches Some(s) ==> vstd::utf8::encode_utf8(s@) == bytes@,
{
    String::from_utf8(bytes).ok()
}

/// Trimming only ever shortens.
pub proof fn lemma_trim_start_len(s: Seq<char>)
    ensures
        spec_trim_start(s).len() <= s.len(),
        s.len() > 0 && spec_is_space(s[0]) ==> spec_trim_start(s).len() < s.len(),
    decreases s.len(),
{
    if s.len() > 0 && spec_is_space(s[0]) {
        lemma_trim_start_len(s.drop_first());
    }
}

pub proof fn lemma_trim_end_len(s: Seq<char>)
    ensures
        spec_trim_end(s).len() <= s.len(),
        s.len() > 0 && spec_is_space(s[s.len() - 1]) ==> spec_trim_end(s).len() < s.len(),
    decreases s.len(),
{
    if s.len() > 0 && spec_is_space(s[s.len() - 1]) {
        lemma_trim_end_len(s.drop_last());
    }
}

/// A sequence with non-space ends trims to itself.
pub proof fn lemma_trim_nonspace_ends(s: Seq<char>)
    requires
        s.len() > 0,
        !spec_is_space(s[0]),
        !spec_is_space(s[s.len() - 1]),
    ensures
        spec_trim(s) == s,
{
}

/// A trim-stable non-empty sequence has non-space ends.
pub proof fn lemma_trim_stable_ends(s: Seq<char>)
    requires
        spec_trim(s) == s,
        s.len() > 0,
    ensures
        !spec_is_space(s[0]),
        !spec_is_space(s[s.len() - 1]),
{
    lemma_trim_start_len(s);
    lemma_trim_end_len(s);
    if spec_is_space(s[0]) {
        lemma_trim_end_len(spec_trim_start(s));
        assert(spec_trim(s).len() < s.len());
    }
    if spec_is_space(s[s.len() - 1]) {
        assert(spec_trim_start(s) == s) by {
            if spec_trim_start(s).len() < s.len() {
                lemma_trim_end_len(spec_trim_start(s));
                assert(spec_trim(s).len() < s.len());
            } else {
                lemma_trim_start_prefix_or_self(s);
            }
        }
        assert(spec_trim_end(s).len() < s.len());
    }
}

/// A trim of the start is a suffix; when nothing shortens it is the
/// sequence itself.
proof fn lemma_trim_start_prefix_or_self(s: Seq<char>)
    ensures
        spec_trim_start(s).len() == s.len() ==> spec_trim_start(s) == s,
    decreases s.len(),
{
    if s.len() > 0 && spec_is_space(s[0]) {
        lemma_trim_start_len(s.drop_first());
    }
}

/// Trimming is idempotent.
pub proof fn lemma_trim_idempotent(s: Seq<char>)
    ensures
        spec_trim(spec_trim(s)) == spec_trim(s),
{
    let t = spec_trim(s);
    if t.len() == 0 {
        assert(spec_trim(t) == t);
    } else {
        lemma_trim_result_ends(s);
        lemma_trim_nonspace_ends(t);
    }
}

/// A non-empty trim result has non-space ends.
pub proof fn lemma_trim_result_ends(s: Seq<char>)
    requires
        spec_trim(s).len() > 0,
    ensures
        !spec_is_space(spec_trim(s)[0]),
        !spec_is_space(spec_trim(s)[spec_trim(s).len() - 1]),
{
    lemma_trim_start_head(s);
    lemma_trim_end_last(spec_trim_start(s));
    lemma_trim_end_keeps_head(spec_trim_start(s));
}

/// A non-empty start-trim begins with a non-space character.
proof fn lemma_trim_start_head(s: Seq<char>)
    ensures
        spec_trim_start(s).len() > 0 ==> !spec_is_space(spec_trim_start(s)[0]),
    decreases s.len(),
{
    if s.len() > 0 && spec_is_space(s[0]) {
        lemma_trim_start_head(s.drop_first());
    }
}

/// A non-empty end-trim ends with a non-space character.
proof fn lemma_trim_end_last(s: Seq<char>)
    ensures
        spec_trim_end(s).len() > 0 ==> !spec_is_space(
            spec_trim_end(s)[spec_trim_end(s).len() - 1],
        ),
    decreases s.len(),
{
    if s.len() > 0 && spec_is_space(s[s.len() - 1]) {
        lemma_trim_end_last(s.drop_last());
    }
}

/// Trimming the end keeps the first character.
proof fn lemma_trim_end_keeps_head(s: Seq<char>)
    ensures
        spec_trim_end(s).len() > 0 ==> spec_trim_end(s)[0] == s[0],
    decreases s.len(),
{
    if s.len() > 0 && spec_is_space(s[s.len() - 1]) {
        lemma_trim_end_keeps_head(s.drop_last());
    }
}

/// Trimming a sequence padded by single spaces trims the middle, for a
/// trim-stable non-empty middle.
pub proof fn lemma_trim_padded(n: Seq<char>)
    requires
        spec_trim(n) == n,
        n.len() > 0,
    ensures
        spec_trim(seq![' '] + n + seq![' ']) == n,
{
    lemma_trim_stable_ends(n);
    let padded = seq![' '] + n + seq![' '];
    assert(padded[0] == ' ');
    assert(padded.drop_first() =~= n + seq![' ']);
    assert(spec_trim_start(padded) == spec_trim_start(n + seq![' ']));
    assert(!spec_is_space((n + seq![' '])[0]));
    assert(spec_trim_start(n + seq![' ']) == n + seq![' ']);
    assert((n + seq![' ']).last() == ' ');
    assert((n + seq![' ']).drop_last() =~= n);
    assert(spec_trim_end(n + seq![' ']) == spec_trim_end(n));
    assert(spec_trim_end(n) == n);
}

/// Every character of a trimmed sequence is a character of the original.
pub proof fn lemma_trim_chars_subset(s: Seq<char>)
    ensures
        forall|i: int|
            0 <= i < spec_trim(s).len() ==> exists|j: int|
                0 <= j < s.len() && s[j] == #[trigger] spec_trim(s)[i],
{
    lemma_trim_start_suffix(s);
    let k = choose|k: int| 0 <= k <= s.len() && spec_trim_start(s) == s.skip(k);
    lemma_trim_end_prefix(s.skip(k));
    let m = choose|m: int|
        0 <= m <= s.skip(k).len() && spec_trim_end(s.skip(k)) == s.skip(k).take(m);
    assert forall|i: int|
        0 <= i < spec_trim(s).len() implies exists|j: int|
            0 <= j < s.len() && s[j] == #[trigger] spec_trim(s)[i] by {
        assert(spec_trim(s)[i] == s.skip(k).take(m)[i]);
        assert(s.skip(k).take(m)[i] == s[k + i]);
    }
}

/// A start-trim is a suffix of the input.
proof fn lemma_trim_start_suffix(s: Seq<char>)
    ensures
        exists|k: int| 0 <= k <= s.len() && spec_trim_start(s) == s.skip(k),
    decreases s.len(),
{
    if s.len() == 0 || !spec_is_space(s[0]) {
        assert(s.skip(0) =~= s);
    } else {
        lemma_trim_start_suffix(s.drop_first());
        let k = choose|k: int|
            0 <= k <= s.drop_first().len() && spec_trim_start(s.drop_first())
                == s.drop_first().skip(k);
        assert(s.drop_first().skip(k) =~= s.skip(k + 1));
    }
}

/// An end-trim is a prefix of the input.
proof fn lemma_trim_end_prefix(s: Seq<char>)
    ensures
        exists|m: int| 0 <= m <= s.len() && spec_trim_end(s) == s.take(m),
    decreases s.len(),
{
    if s.len() == 0 || !spec_is_space(s[s.len() - 1]) {
        assert(s.take(s.len() as int) =~= s);
    } else {
        lemma_trim_end_prefix(s.drop_last());
        let m = choose|m: int|
            0 <= m <= s.drop_last().len() && spec_trim_end(s.drop_last()) == s.drop_last().take(
                m,
            );
        assert(s.drop_last().take(m) =~= s.take(m));
    }
}

} // verus!
