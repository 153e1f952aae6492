//! Workspace scaffolding reports and the Tailwind token stylesheet merge:
//! where the token block is inserted into an existing stylesheet, and the
//! helpers that split, trim and place it.  File reads and writes are the
//! caller's job.

use vstd::prelude::*;

use crate::components::{spec_find_char, spec_lines};
use crate::registry::RegistryError;
use crate::text::{
    chars_of, string_from_chars, string_from_utf8, trim_chars, sub_chars, push_chars,
    push_str_chars, starts_with_at, spec_trim, spec_trim_start, match_at,
};

verus! {

/// What scaffolding created (or would create).
pub struct ScaffoldReport {
    pub directories: Vec<String>,
    pub files: Vec<String>,
}

impl ScaffoldReport {
    /// An empty report.
    pub fn new() -> (r: ScaffoldReport)
        ensures
            r.directories@.len() == 0,
            r.files@.len() == 0,
    {
        ScaffoldReport { directories: Vec::new(), files: Vec::new() }
    }

    /// Records a created directory.
    pub fn record_dir(&mut self, path: String)
        ensures
            final(self).directories@ == old(self).directories@.push(path),
            final(self).files == old(self).files,
    {
        self.directories.push(path);
    }

    /// Records a created file.
    pub fn record_file(&mut self, path: String)
        ensures
            final(self).files@ == old(self).files@.push(path),
            final(self).directories == old(self).directories,
    {
        self.files.push(path);
    }

    /// Whether anything was created.
    pub fn any(&self) -> (r: bool)
        ensures
            r == (self.directories@.len() > 0 || self.files@.len() > 0),
    {
        self.directories.len() > 0 || self.files.len() > 0
    }
}

/// What syncing the token stylesheet found or did.
pub enum TailwindSyncStatus {
    MissingConfig,
    MissingFile(String),
    AlreadyPresent(String),
    DryRun(String),
    Updated(String),
}

/// What can go wrong working on the workspace.
#[derive(Debug)]
pub enum WorkspaceError {
    Io(String, String),
    Registry(RegistryError),
    HelperDecode(String, String),
    HelperDownload(String, RegistryError),
    HelperUnavailable,
    TailwindPathMissing,
    TailwindFileMissing(String),
    TailwindTokensEmpty,
    TailwindTokensInvalidUtf8(String),
}

/// The registry path of the design-token stylesheet.
pub fn css_token_registry_path() -> (r: &'static str)
    ensures
        r@ == "tokens/motion-core.css"@,
{
    "tokens/motion-core.css"
}

/// The marker whose presence means the tokens are already in place.
pub fn css_token_sentinel() -> (r: &'static str)
    ensures
        r@ == "@utility card-highlight"@,
{
    "@utility card-highlight"
}

/// Decodes the downloaded utility helper as UTF-8.
pub fn decode_cn_helper(bytes: Vec<u8>) -> (r: Result<String, WorkspaceError>)
    ensures
        match r {
            Ok(s) => vstd::utf8::valid_utf8(bytes@) && vstd::utf8::encode_utf8(s@) == bytes@,
            Err(e) => !vstd::utf8::valid_utf8(bytes@) && (e matches WorkspaceError::HelperDecode(
                p,
                _,
            ) && p@ == "utils/cn.ts"@),
        },
{
    let ghost bv = bytes@;
    match string_from_utf8(bytes) {
        Some(s) => Ok(s),
        None => Err(
            WorkspaceError::HelperDecode(
                "utils/cn.ts".to_owned(),
                "invalid UTF-8".to_owned(),
            ),
        ),
    }
}

/// Whether `pat` occurs anywhere in `s`.
pub fn text_contains(s: &str, pat: &str) -> (r: bool)
    ensures
        r == exists|j: int| match_at(s@, pat@, j),
{
    let sc = chars_of(s);
    let pc = chars_of(pat);
    match crate::text::find_sub_from(&sc, &pc, 0) {
        Some(i) => {
            proof {
                assert(match_at(s@, pat@, i as int));
            }
            true
        },
        None => {
            proof {
                assert(forall|j: int| !match_at(s@, pat@, j));
            }
            false
        },
    }
}

/// Leading byte-order marks stripped.
pub open spec fn spec_strip_boms(s: Seq<char>) -> Seq<char>
    decreases s.len(),
{
    if s.len() > 0 && s[0] == '\u{feff}' {
        spec_strip_boms(s.drop_first())
    } else {
        s
    }
}

/// How a token bundle splits: when its trimmed text opens with an import
/// line, that line (trimmed) and the rest; otherwise no import line and
/// the whole (BOM-stripped) text.
pub open spec fn spec_split_token_bundle(src: Seq<char>) -> (Option<Seq<char>>, Seq<char>) {
    let t = spec_strip_boms(src);
    let p = "@import"@;
    let ts = spec_trim_start(t);
    if ts.len() >= p.len() && ts.subrange(0, p.len() as int) == p {
        match spec_find_char(t, '\n', 0) {
            Some(i) => (Some(spec_trim(t.subrange(0, i))), t.subrange(i + 1, t.len() as int)),
            None => (Some(spec_trim(t)), Seq::<char>::empty()),
        }
    } else {
        (None, t)
    }
}

/// Splits the downloaded token bundle into its import line, if any, and
/// the token body.
pub fn split_token_bundle(source: &str) -> (r: (Option<String>, String))
    ensures
        ({
            let (line, body) = spec_split_token_bundle(source@);
            &&& (match r.0 {
                Some(l) => line == Some(l@),
                None => line is None,
            })
            &&& r.1@ == body
        }),
{
    let chars = chars_of(source);
    let n = chars.len();
    let mut start: usize = 0;
    proof {
        assert(chars@.skip(0) =~= chars@);
    }
    while start < n && chars[start] == '\u{feff}'
        invariant
            n == chars@.len(),
            start <= n,
            forall|k: int| 0 <= k < start ==> chars@[k] == '\u{feff}',
            spec_strip_boms(chars@) == spec_strip_boms(chars@.skip(start as int)),
        decreases n - start,
    {
        proof {
            assert(chars@.skip(start as int)[0] == chars@[start as int]);
            assert(chars@.skip(start as int).drop_first() =~= chars@.skip(start + 1));
        }
        start = start + 1;
    }
    let t = sub_chars(&chars, start, n);
    proof {
        if start < n {
            assert(chars@.skip(start as int)[0] == chars@[start as int]);
        }
        assert(t@ =~= chars@.skip(start as int));
        assert(spec_strip_boms(t@) == t@);
        assert(t@ == spec_strip_boms(source@));
    }
    let ts = trim_start_chars(&t);
    let p = chars_of("@import");
    let plen = p.len();
    let is_import = ts.len() >= plen && starts_with_at(&ts, &p, 0);
    proof {
        if ts@.len() >= p@.len() {
            if match_at(ts@, p@, 0) {
                assert(ts@.subrange(0, p@.len() as int) == p@);
            } else {
                assert(ts@.subrange(0, p@.len() as int) != p@);
            }
        }
    }
    if is_import {
        match crate::components::find_char_eq(&t, '\n', 0) {
            Some(i) => {
                let line_raw = sub_chars(&t, 0, i);
                let line = trim_chars(&line_raw);
                let tn = t.len();
                let body = sub_chars(&t, i + 1, tn);
                (Some(string_from_chars(&line)), string_from_chars(&body))
            },
            None => {
                let line = trim_chars(&t);
                let empty: Vec<char> = Vec::new();
                proof {
                    assert(empty@ =~= Seq::<char>::empty());
                }
                (Some(string_from_chars(&line)), string_from_chars(&empty))
            },
        }
    } else {
        (None, string_from_chars(&t))
    }
}

/// The suffix of a buffer after dropping leading ASCII whitespace.
fn trim_start_chars(s: &Vec<char>) -> (r: Vec<char>)
    ensures
        r@ == spec_trim_start(s@),
{
    let n = s.len();
    let mut start: usize = 0;
    proof {
        assert(s@.skip(0) =~= s@);
    }
    while start < n && crate::text::is_space(s[start])
        invariant
            n == s@.len(),
            start <= n,
            spec_trim_start(s@) == spec_trim_start(s@.skip(start as int)),
        decreases n - start,
    {
        proof {
            assert(s@.skip(start as int)[0] == s@[start as int]);
            assert(s@.skip(start as int).drop_first() =~= s@.skip(start + 1));
        }
        start = start + 1;
    }
    let r = sub_chars(s, start, n);
    proof {
        assert(r@ =~= s@.skip(start as int));
        if start < n {
            assert(s@.skip(start as int)[0] == s@[start as int]);
        }
        assert(spec_trim_start(r@) == r@);
    }
    r
}

/// A newline-class character.
pub open spec fn spec_is_nl(c: char) -> bool {
    c == '\n' || c == '\r'
}

/// Leading newline characters dropped.
pub open spec fn spec_drop_nl_front(s: Seq<char>) -> Seq<char>
    decreases s.len(),
{
    if s.len() > 0 && spec_is_nl(s[0]) {
        spec_drop_nl_front(s.drop_first())
    } else {
        s
    }
}

/// Trailing newline characters dropped.
pub open spec fn spec_drop_nl_back(s: Seq<char>) -> Seq<char>
    decreases s.len(),
{
    if s.len() > 0 && spec_is_nl(s[s.len() - 1]) {
        spec_drop_nl_back(s.drop_last())
    } else {
        s
    }
}

/// The token body with leading and trailing newline characters removed.
pub open spec fn spec_trim_token_body(s: Seq<char>) -> Seq<char> {
    spec_drop_nl_back(spec_drop_nl_front(s))
}

/// Strips blank padding off the token body.
pub fn trim_token_body(body: &str) -> (r: String)
    ensures
        r@ == spec_trim_token_body(body@),
{
    let chars = chars_of(body);
    let n = chars.len();
    let mut start: usize = 0;
    proof {
        assert(chars@.skip(0) =~= chars@);
    }
    while start < n && (chars[start] == '\n' || chars[start] == '\r')
        invariant
            n == chars@.len(),
            start <= n,
            spec_drop_nl_front(chars@) == spec_drop_nl_front(chars@.skip(start as int)),
        decreases n - start,
    {
        proof {
            assert(chars@.skip(start as int)[0] == chars@[start as int]);
            assert(chars@.skip(start as int).drop_first() =~= chars@.skip(start + 1));
        }
        start = start + 1;
    }
    let ghost front = chars@.skip(start as int);
    proof {
        if start < n {
            assert(front[0] == chars@[start as int]);
        }
        assert(spec_drop_nl_front(front) == front);
        assert(spec_drop_nl_front(chars@) == front);
    }
    let mut end: usize = n;
    while end > start && (chars[end - 1] == '\n' || chars[end - 1] == '\r')
        invariant
            n == chars@.len(),
            start <= end <= n,
            front == chars@.skip(start as int),
            spec_drop_nl_front(chars@) == front,
            spec_drop_nl_back(front) == spec_drop_nl_back(chars@.subrange(
                start as int,
                end as int,
            )),
        decreases end,
    {
        proof {
            let cur = chars@.subrange(start as int, end as int);
            assert(cur.last() == chars@[end - 1]);
            assert(cur.drop_last() =~= chars@.subrange(start as int, end - 1));
        }
        end = end - 1;
    }
    let r = sub_chars(&chars, start, end);
    proof {
        let cur = chars@.subrange(start as int, end as int);
        if end > start {
            assert(cur.last() == chars@[end - 1]);
        }
        assert(spec_drop_nl_back(cur) == cur);
        assert(r@ == spec_trim_token_body(body@));
    }
    string_from_chars(&r)
}

/// The newline convention of a stylesheet: CRLF when any CRLF occurs.
pub open spec fn spec_detect_newline(s: Seq<char>) -> Seq<char> {
    if exists|i: int| match_at(s, "\r\n"@, i) {
        "\r\n"@
    } else {
        "\n"@
    }
}

/// Detects the newline convention of the existing stylesheet.
pub fn detect_newline(contents: &str) -> (r: &'static str)
    ensures
        r@ == spec_detect_newline(contents@),
{
    let chars = chars_of(contents);
    let pat = chars_of("\r\n");
    match crate::text::find_sub_from(&chars, &pat, 0) {
        Some(i) => {
            proof {
                assert(match_at(contents@, "\r\n"@, i as int));
            }
            "\r\n"
        },
        None => {
            proof {
                assert(forall|j: int| !match_at(contents@, "\r\n"@, j));
            }
            "\n"
        },
    }
}

/// Whether a line, once its leading whitespace is dropped, is an import
/// of the Tailwind framework.
pub open spec fn spec_is_tw_import_line(l: Seq<char>) -> bool {
    let t = spec_trim_start(l);
    let p = "@import"@;
    t.len() >= p.len() && t.subrange(0, p.len() as int) == p && exists|j: int|
        match_at(t, "tailwindcss"@, j)
}

/// Whether any line of the stylesheet already imports Tailwind.
pub open spec fn spec_has_tailwind_import(s: Seq<char>) -> bool {
    exists|i: int|
        0 <= i < spec_lines(s).len() && spec_is_tw_import_line(#[trigger] spec_lines(s)[i])
}

/// Looks for an existing Tailwind import line.
pub fn has_tailwind_import(contents: &str) -> (r: bool)
    ensures
        r == spec_has_tailwind_import(contents@),
{
    let chars = chars_of(contents);
    let lines = crate::components::split_lines(&chars);
    let n = lines.len();
    let ghost lv = spec_lines(contents@);
    proof {
        assert(lines@.map_values(|v: Vec<char>| v@).len() == n);
    }
    let mut i: usize = 0;
    while i < n
        invariant
            n == lines@.len(),
            lv == spec_lines(contents@),
            lv == lines@.map_values(|v: Vec<char>| v@),
            i <= n,
            forall|j: int| 0 <= j < i ==> !spec_is_tw_import_line(#[trigger] lv[j]),
        decreases n - i,
    {
        proof {
            assert(lv[i as int] == lines@[i as int]@);
        }
        let t = trim_start_chars(&lines[i]);
        let p = chars_of("@import");
        let tw = chars_of("tailwindcss");
        let plen = p.len();
        if t.len() >= plen && starts_with_at(&t, &p, 0) {
            proof {
                assert(t@.subrange(0, p@.len() as int) == p@);
            }
            match crate::text::find_sub_from(&t, &tw, 0) {
                Some(j) => {
                    proof {
                        assert(match_at(t@, "tailwindcss"@, j as int));
                        assert(spec_is_tw_import_line(lv[i as int]));
                    }
                    return true;
                },
                None => {
                    proof {
                        assert(forall|j: int| !match_at(t@, "tailwindcss"@, j));
                        assert(!spec_is_tw_import_line(lv[i as int]));
                    }
                },
            }
        } else {
            proof {
                if t@.len() >= p@.len() && !match_at(t@, p@, 0) {
                    assert(t@.subrange(0, p@.len() as int) != p@);
                }
                assert(!spec_is_tw_import_line(lv[i as int]));
            }
        }
        i = i + 1;
    }
    false
}

/// Where the token block goes: just after the last import line, or at the
/// very start when there is none.  A final line without a newline counts
/// up to the text's end.
pub open spec fn spec_find_insert(s: Seq<char>, pos: int) -> Option<int>
    decreases s.len() - pos,
{
    if pos < 0 || pos >= s.len() {
        None
    } else {
        let line_end_raw = match spec_find_char(s, '\n', pos) {
            Some(i) => i + 1,
            None => s.len() as int,
        };
        let line_end = if line_end_raw <= pos {
            pos + 1
        } else if line_end_raw > s.len() {
            s.len() as int
        } else {
            line_end_raw
        };
        let t = spec_trim_start(s.subrange(pos, line_end));
        let p = "@import"@;
        let this = if t.len() >= p.len() && t.subrange(0, p.len() as int) == p {
            Some(line_end)
        } else {
            None
        };
        match spec_find_insert(s, line_end) {
            Some(e) => Some(e),
            None => this,
        }
    }
}

/// The insertion index for the token block.
pub open spec fn spec_import_insertion_index(s: Seq<char>) -> int {
    match spec_find_insert(s, 0) {
        Some(e) => e,
        None => 0,
    }
}

/// Finds where the token block is inserted: right after the last
/// `@import` line, else at the start.
pub fn find_import_insertion_index(contents: &str) -> (r: usize)
    ensures
        r as int == spec_import_insertion_index(contents@),
        r <= contents@.len(),
{
    let chars = chars_of(contents);
    let n = chars.len();
    let p = chars_of("@import");
    let plen = p.len();
    let mut pos: usize = 0;
    let mut best: usize = 0;
    let ghost mut found: Option<int> = None;
    while pos < n
        invariant
            n == chars@.len(),
            chars@ == contents@,
            pos <= n,
            p@ == "@import"@,
            plen == p@.len(),
            spec_import_insertion_index(contents@) == combine_found(found, spec_find_insert(
                contents@,
                pos as int,
            )),
            match found {
                Some(e) => best as int == e && 0 <= e <= n,
                None => best == 0,
            },
        decreases n - pos,
    {
        let line_end: usize = match crate::components::find_char_eq(&chars, '\n', pos) {
            Some(i) => i + 1,
            None => n,
        };
        proof {
            assert(pos < line_end <= n);
        }
        let line = sub_chars(&chars, pos, line_end);
        let t = trim_start_chars(&line);
        let is_import = t.len() >= plen && starts_with_at(&t, &p, 0);
        proof {
            if t@.len() >= p@.len() {
                if match_at(t@, p@, 0) {
                    assert(t@.subrange(0, p@.len() as int) == p@);
                } else {
                    assert(t@.subrange(0, p@.len() as int) != p@);
                }
            }
        }
        proof {
            let s = contents@;
            let pp = pos as int;
            let raw = match spec_find_char(s, '\n', pp) {
                Some(i) => i + 1,
                None => s.len() as int,
            };
            assert(raw == line_end as int);
            let le = if raw <= pp {
                pp + 1
            } else if raw > s.len() {
                s.len() as int
            } else {
                raw
            };
            assert(le == line_end as int);
            assert(line@ == s.subrange(pp, le));
            assert(t@ == spec_trim_start(s.subrange(pp, le)));
            let this = if t@.len() >= "@import"@.len() && t@.subrange(
                0,
                "@import"@.len() as int,
            ) == "@import"@ {
                Some(le)
            } else {
                None
            };
            assert(this == (if is_import {
                Some(line_end as int)
            } else {
                None
            }));
            assert(spec_find_insert(s, pp) == (match spec_find_insert(s, le) {
                Some(e) => Some(e),
                None => this,
            }));
        }
        if is_import {
            best = line_end;
            proof {
                found = Some(line_end as int);
            }
        }
        pos = line_end;
    }
    proof {
        assert(spec_find_insert(contents@, n as int) is None);
    }
    best
}

/// A remembered match combined with what the rest of the scan will find:
/// later matches win.
pub open spec fn combine_found(found: Option<int>, rest: Option<int>) -> int {
    match rest {
        Some(e) => e,
        None => match found {
            Some(e) => e,
            None => 0,
        },
    }
}

/// `s` ends with `pat`.
pub open spec fn spec_ends_with(s: Seq<char>, pat: Seq<char>) -> bool {
    s.len() >= pat.len() && s.subrange(s.len() - pat.len(), s.len() as int) == pat
}

/// The token block to insert: the import line (when the stylesheet has no
/// Tailwind import yet) separated by a blank line, then the body, closed
/// by a newline.
pub open spec fn spec_token_block(
    existing: Seq<char>,
    import_line: Option<Seq<char>>,
    body: Seq<char>,
) -> Seq<char> {
    let nl = spec_detect_newline(existing);
    let block0 = if !spec_has_tailwind_import(existing) && import_line is Some {
        spec_trim(import_line.unwrap()) + nl
    } else {
        Seq::<char>::empty()
    };
    let block1 = if block0.len() > 0 {
        block0 + nl
    } else {
        block0
    };
    let block2 = block1 + body;
    if spec_ends_with(block2, nl) {
        block2
    } else {
        block2 + nl
    }
}

/// The merged stylesheet: the token block placed after the last import
/// line, separated from a non-empty prefix by exactly one blank line.
pub open spec fn spec_merged_stylesheet(existing: Seq<char>, tokens: Seq<char>) -> Seq<char> {
    let split = spec_split_token_bundle(tokens);
    let body = spec_trim_token_body(split.1);
    let nl = spec_detect_newline(existing);
    let idx = spec_import_insertion_index(existing);
    let prefix = existing.subrange(0, idx);
    let suffix = existing.subrange(idx, existing.len() as int);
    let block = spec_token_block(existing, split.0, body);
    let glue = if prefix.len() == 0 {
        Seq::<char>::empty()
    } else if spec_ends_with(prefix, nl + nl) {
        Seq::<char>::empty()
    } else if spec_ends_with(prefix, nl) {
        nl
    } else {
        nl + nl
    };
    let upd = prefix + glue + block;
    upd + (if suffix.len() > 0 && !spec_ends_with(upd, nl) {
        nl
    } else {
        Seq::<char>::empty()
    }) + suffix
}

/// Whether the buffer ends with the pattern.
fn ends_with_chars(s: &Vec<char>, pat: &Vec<char>) -> (r: bool)
    ensures
        r == spec_ends_with(s@, pat@),
{
    let sl = s.len();
    let pl = pat.len();
    if sl < pl {
        return false;
    }
    let r = starts_with_at(s, pat, sl - pl);
    proof {
        if r {
            assert(s@.subrange(sl - pl, sl as int) == pat@);
        } else {
            assert(s@.subrange(sl - pl, sl as int) != pat@);
        }
    }
    r
}

/// Inserts the token bundle into the existing stylesheet: the body lands
/// after the last import line, preceded by the bundle's own import line
/// when the sheet lacks a Tailwind import, separated by one blank line
/// from what precedes it.  An empty token body is refused.
pub fn merge_tailwind_tokens(existing: &str, tokens_source: &str) -> (r: Result<
    String,
    WorkspaceError,
>)
    ensures
        ({
            let body = spec_trim_token_body(spec_split_token_bundle(tokens_source@).1);
            match r {
                Ok(s) => body.len() > 0 && s@ == spec_merged_stylesheet(existing@,
                tokens_source@),
                Err(e) => body.len() == 0 && e is TailwindTokensEmpty,
            }
        }),
{
    let split = split_token_bundle(tokens_source);
    let (import_line, body0) = split;
    let body = trim_token_body(body0.as_str());
    if body.unicode_len() == 0 {
        return Err(WorkspaceError::TailwindTokensEmpty);
    }
    let nl: &str = detect_newline(existing);
    let nlc = chars_of(nl);
    let idx = find_import_insertion_index(existing);
    let chars = chars_of(existing);
    let prefix = sub_chars(&chars, 0, idx);
    let n = chars.len();
    let suffix = sub_chars(&chars, idx, n);
    let has_tw = has_tailwind_import(existing);
    // the block
    let mut block: Vec<char> = Vec::new();
    if !has_tw {
        match &import_line {
            Some(line) => {
                let trimmed = trim_chars(&chars_of(line.as_str()));
                push_chars(&mut block, &trimmed);
                push_chars(&mut block, &nlc);
                proof {
                    assert(block@ =~= spec_trim(line@) + nl@);
                }
            },
            None => {
            },
        }
    }
    proof {
        let split_v = spec_split_token_bundle(tokens_source@);
        assert(block@ == (if !spec_has_tailwind_import(existing@) && split_v.0 is Some {
            spec_trim(split_v.0.unwrap()) + spec_detect_newline(existing@)
        } else {
            Seq::<char>::empty()
        }));
    }
    if block.len() > 0 {
        push_chars(&mut block, &nlc);
    }
    let body_chars = chars_of(body.as_str());
    push_chars(&mut block, &body_chars);
    if !ends_with_chars(&block, &nlc) {
        push_chars(&mut block, &nlc);
    }
    proof {
        assert(block@ == spec_token_block(existing@, spec_split_token_bundle(tokens_source@).0,
            spec_trim_token_body(spec_split_token_bundle(tokens_source@).1)));
    }
    // the glue between prefix and block
    let mut blank = chars_of(nl);
    push_chars(&mut blank, &nlc);
    proof {
        assert(blank@ =~= nl@ + nl@);
    }
    let mut out: Vec<char> = Vec::new();
    push_chars(&mut out, &prefix);
    if prefix.len() > 0 {
        if ends_with_chars(&prefix, &blank) {
        } else if ends_with_chars(&prefix, &nlc) {
            push_chars(&mut out, &nlc);
        } else {
            push_chars(&mut out, &nlc);
            push_chars(&mut out, &nlc);
        }
    }
    proof {
        let nlv = spec_detect_newline(existing@);
        let pre = existing@.subrange(0, spec_import_insertion_index(existing@));
        assert(out@ == pre + (if pre.len() == 0 {
            Seq::<char>::empty()
        } else if spec_ends_with(pre, nlv + nlv) {
            Seq::<char>::empty()
        } else if spec_ends_with(pre, nlv) {
            nlv
        } else {
            nlv + nlv
        })) by {
            if pre.len() == 0 {
                assert(out@ =~= pre);
            } else if spec_ends_with(pre, nlv + nlv) {
                assert(out@ =~= pre);
            } else if spec_ends_with(pre, nlv) {
                assert(out@ =~= pre + nlv);
            } else {
                assert(out@ =~= pre + nlv + nlv);
                assert(pre + nlv + nlv =~= pre + (nlv + nlv));
            }
        }
    }
    push_chars(&mut out, &block);
    if suffix.len() > 0 && !ends_with_chars(&out, &nlc) {
        push_chars(&mut out, &nlc);
    }
    push_chars(&mut out, &suffix);
    proof {
        let nlv = spec_detect_newline(existing@);
        let idxv = spec_import_insertion_index(existing@);
        let pre = existing@.subrange(0, idxv);
        let suf = existing@.subrange(idxv, existing@.len() as int);
        let blockv = spec_token_block(existing@, spec_split_token_bundle(tokens_source@).0,
            spec_trim_token_body(spec_split_token_bundle(tokens_source@).1));
        let glue = if pre.len() == 0 {
            Seq::<char>::empty()
        } else if spec_ends_with(pre, nlv + nlv) {
            Seq::<char>::empty()
        } else if spec_ends_with(pre, nlv) {
            nlv
        } else {
            nlv + nlv
        };
        let upd = pre + glue + blockv;
        assert(out@ =~= upd + (if suf.len() > 0 && !spec_ends_with(upd, nlv) {
            nlv
        } else {
            Seq::<char>::empty()
        }) + suf);
    }
    Ok(string_from_chars(&out))
}

} // verus!
