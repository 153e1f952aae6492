//! Destination resolution and the barrel renderer.
//!
//! A component file's destination is chosen by its target tag among the
//! configured alias directories and sanitized under the workspace root.
//! The barrel is a generated file of `export` lines; rendering merges new
//! component and type exports into the parsed existing text, ordered by
//! exported identifier, and reports whether anything changed.

use vstd::prelude::*;

use crate::config::Config;
use crate::paths::{spec_sanitize, spec_workspace_path, sanitize_relative_path, workspace_path};
use crate::registry::ComponentFileRecord;
use crate::strmap::{StrMap, spec_assoc_get, spec_assoc_insert};
use crate::text::{
    chars_of, chars_eq, trim_chars, string_from_chars, push_chars, push_str_chars, sub_chars,
    find_char_from, rfind_char, starts_with_at, spec_trim,
};

verus! {

/// A component's public export: its identifier and the entry file it
/// re-exports.
pub struct ComponentExportSpec {
    pub export_name: String,
    pub entry_path: String,
}

/// Named type exports declared by one file.
pub struct TypeExportSpec {
    pub export_names: Vec<String>,
    pub entry_path: String,
}

/// The first position of `c` in `s` at or after `from`, if any.
pub open spec fn spec_find_char(s: Seq<char>, c: char, from: int) -> Option<int>
    decreases s.len() - from,
{
    if from < 0 || from >= s.len() {
        None
    } else if s[from] == c {
        Some(from)
    } else {
        spec_find_char(s, c, from + 1)
    }
}

/// `spec_find_char` finds exactly the first occurrence.
pub proof fn lemma_find_char_spec(s: Seq<char>, c: char, from: int)
    requires
        0 <= from <= s.len(),
    ensures
        match spec_find_char(s, c, from) {
            Some(i) => from <= i < s.len() && s[i] == c && forall|j: int|
                from <= j < i ==> s[j] != c,
            None => forall|j: int| from <= j < s.len() ==> s[j] != c,
        },
    decreases s.len() - from,
{
    if from < s.len() && s[from as int] != c {
        lemma_find_char_spec(s, c, from + 1);
    }
}

/// The category prefix (components, helpers, utils, assets) stripped off a
/// registry path, when present.
pub open spec fn spec_strip_category(s: Seq<char>) -> Seq<char> {
    match spec_find_char(s, '/', 0) {
        None => s,
        Some(i) => {
            let first = s.subrange(0, i);
            if first == "components"@ || first == "helpers"@ || first == "utils"@ || first
                == "assets"@ {
                s.subrange(i + 1, s.len() as int)
            } else {
                s
            }
        },
    }
}

/// Drops a leading `components/`, `helpers/`, `utils/` or `assets/`
/// category from a registry-relative path.
pub fn strip_category(path: &str) -> (r: String)
    ensures
        r@ == spec_strip_category(path@),
{
    let chars = chars_of(path);
    let n = chars.len();
    proof {
        lemma_find_char_spec(path@, '/', 0);
    }
    match find_char_from(&chars, '/', 0) {
        None => {
            proof {
                match spec_find_char(path@, '/', 0) {
                    Some(k) => {
                        assert(path@[k] == '/');
                        assert(false);
                    },
                    None => {},
                }
            }
            string_from_chars(&chars)
        },
        Some(i) => {
            proof {
                match spec_find_char(path@, '/', 0) {
                    Some(k) => {
                        if k < i {
                            assert(path@[k] == '/');
                            assert(false);
                        }
                        if k > i {
                            assert(path@[i as int] != '/');
                            assert(false);
                        }
                    },
                    None => {
                        assert(path@[i as int] != '/');
                        assert(false);
                    },
                }
                assert(spec_find_char(path@, '/', 0) == Some(i as int));
            }
            let first = sub_chars(&chars, 0, i);
            let is_category = chars_eq(&first, &chars_of("components")) || chars_eq(
                &first,
                &chars_of("helpers"),
            ) || chars_eq(&first, &chars_of("utils")) || chars_eq(&first, &chars_of("assets"));
            if is_category {
                let rest = sub_chars(&chars, i + 1, n);
                string_from_chars(&rest)
            } else {
                string_from_chars(&chars)
            }
        },
    }
}

/// The alias directory a file's target tag selects: helpers, utils and
/// assets have their own directories, `root` means the workspace root, and
/// everything else lands under the components alias.
pub open spec fn spec_target_base(config: Config, target: Option<Seq<char>>) -> Seq<char> {
    match target {
        Some(t) => {
            if t == "helper"@ || t == "helpers"@ {
                config.aliases.helpers.filesystem@
            } else if t == "utils"@ {
                config.aliases.utils.filesystem@
            } else if t == "asset"@ || t == "assets"@ {
                config.aliases.assets.filesystem@
            } else if t == "root"@ {
                Seq::<char>::empty()
            } else {
                config.aliases.components.filesystem@
            }
        },
        None => config.aliases.components.filesystem@,
    }
}

/// The view of an optional string field.
pub open spec fn opt_string_view(o: Option<String>) -> Option<Seq<char>> {
    match o {
        Some(s) => Some(s@),
        None => None,
    }
}

/// Where a component file lands: its category-stripped, sanitized path
/// under the alias directory its target selects.
pub open spec fn spec_resolve_destination(
    root: Seq<char>,
    config: Config,
    file: ComponentFileRecord,
) -> Seq<char> {
    let base = spec_target_base(config, opt_string_view(file.target));
    let base_path = spec_workspace_path(root, base);
    let rel = spec_sanitize(spec_strip_category(file.path@));
    if rel.len() == 0 {
        base_path
    } else {
        base_path + seq!['/'] + rel
    }
}

/// Resolves a component file's destination under the workspace root.
pub fn resolve_component_destination(
    workspace_root: &str,
    config: &Config,
    file: &ComponentFileRecord,
) -> (r: String)
    ensures
        r@ == spec_resolve_destination(workspace_root@, *config, *file),
{
    let stripped = strip_category(file.path.as_str());
    let sanitized = sanitize_relative_path(stripped.as_str());
    let base: &str = match &file.target {
        Some(t) => {
            let tc = chars_of(t.as_str());
            if chars_eq(&tc, &chars_of("helper")) || chars_eq(&tc, &chars_of("helpers")) {
                config.aliases.helpers.filesystem.as_str()
            } else if chars_eq(&tc, &chars_of("utils")) {
                config.aliases.utils.filesystem.as_str()
            } else if chars_eq(&tc, &chars_of("asset")) || chars_eq(&tc, &chars_of("assets")) {
                config.aliases.assets.filesystem.as_str()
            } else if chars_eq(&tc, &chars_of("root")) {
                ""
            } else {
                config.aliases.components.filesystem.as_str()
            }
        },
        None => config.aliases.components.filesystem.as_str(),
    };
    proof {
        reveal_strlit("");
        assert(base@ == spec_target_base(*config, opt_string_view(file.target)));
    }
    let base_path = workspace_path(workspace_root, base);
    if sanitized.unicode_len() == 0 {
        base_path
    } else {
        let mut out = chars_of(base_path.as_str());
        out.push('/');
        push_str_chars(&mut out, sanitized.as_str());
        proof {
            assert(out@ =~= base_path@ + seq!['/'] + sanitized@);
        }
        string_from_chars(&out)
    }
}

/// What pathdiff computes: the relative path from `base` to `path`, in
/// slash form, or nothing when none exists.
pub uninterp spec fn rel_path_of(path: Seq<char>, base: Seq<char>) -> Option<Seq<char>>;

/// Relies on pathdiff's `diff_paths`: the relative path from `base` to
/// `path`, `None` exactly when pathdiff yields none.
#[verifier::external_body]
fn diff_paths_str(path: &str, base: &str) -> (r: Option<String>)
    ensures
        match r {
            Some(p) => rel_path_of(path@, base@) == Some(p@),
            None => rel_path_of(path@, base@) is None,
        },
{
    pathdiff::diff_paths(path, base).map(|p| p.to_string_lossy().into_owned())
}

/// The barrel import path for an entry file: relative to the components
/// alias when the entry lives under it, else relative to the barrel's
/// directory, always dot-prefixed.
pub open spec fn spec_import_path(
    root: Seq<char>,
    components_base: Seq<char>,
    barrel_dir: Seq<char>,
    entry: Seq<char>,
) -> Option<Seq<char>> {
    let croot = spec_workspace_path(root, components_base);
    if entry == croot {
        Some("./"@)
    } else if entry.len() > croot.len() + 1 && entry.subrange(0, croot.len() as int + 1) == croot
        + seq!['/'] {
        Some("./"@ + entry.subrange(croot.len() as int + 1, entry.len() as int))
    } else {
        match rel_path_of(entry, barrel_dir) {
            None => None,
            Some(rel) => {
                if rel.len() > 0 && rel[0] == '.' {
                    Some(rel)
                } else {
                    Some("./"@ + rel)
                }
            },
        }
    }
}

/// Computes the import path written into the barrel for `entry_path`.
pub fn compute_import_path(
    workspace_root: &str,
    components_base: &str,
    barrel_dir: &str,
    entry_path: &str,
) -> (r: Option<String>)
    ensures
        match r {
            Some(p) => spec_import_path(workspace_root@, components_base@, barrel_dir@,
            entry_path@) == Some(p@),
            None => spec_import_path(workspace_root@, components_base@, barrel_dir@, entry_path@)
                is None,
        },
{
    let croot = workspace_path(workspace_root, components_base);
    let croot_chars = chars_of(croot.as_str());
    let entry_chars = chars_of(entry_path);
    if chars_eq(&entry_chars, &croot_chars) {
        let mut out: Vec<char> = Vec::new();
        push_str_chars(&mut out, "./");
        proof {
            assert(out@ =~= "./"@);
        }
        return Some(string_from_chars(&out));
    }
    let mut prefix = chars_of(croot.as_str());
    prefix.push('/');
    proof {
        assert(prefix@ =~= croot@ + seq!['/']);
    }
    if entry_chars.len() > prefix.len() && starts_with_at(&entry_chars, &prefix, 0) {
        proof {
            assert(entry_chars@.subrange(0, prefix@.len() as int) == prefix@);
        }
        let rest = sub_chars(&entry_chars, prefix.len(), entry_chars.len());
        let mut out: Vec<char> = Vec::new();
        push_str_chars(&mut out, "./");
        push_chars(&mut out, &rest);
        proof {
            assert(out@ =~= "./"@ + entry_path@.subrange(
                croot@.len() as int + 1,
                entry_path@.len() as int,
            ));
        }
        return Some(string_from_chars(&out));
    }
    proof {
        if entry_path@.len() > croot@.len() + 1 {
            assert(entry_path@.subrange(0, croot@.len() as int + 1) == croot@ + seq!['/']
                ==> match_at(entry_path@, croot@ + seq!['/'], 0)) by {
                assert(prefix@ == croot@ + seq!['/']);
            }
        }
    }
    match diff_paths_str(entry_path, barrel_dir) {
        None => None,
        Some(rel) => {
            let rel_chars = chars_of(rel.as_str());
            if rel_chars.len() > 0 && rel_chars[0] == '.' {
                Some(rel)
            } else {
                let mut out: Vec<char> = Vec::new();
                push_str_chars(&mut out, "./");
                push_chars(&mut out, &rel_chars);
                proof {
                    assert(out@ =~= "./"@ + rel@);
                }
                Some(string_from_chars(&out))
            }
        },
    }
}

/// `pat` occurs in `s` at position `i` (re-exported shorthand).
pub open spec fn match_at(s: Seq<char>, pat: Seq<char>, i: int) -> bool {
    crate::text::match_at(s, pat, i)
}

/// The last position of `c` in `s`, if any.
pub open spec fn spec_rfind_char(s: Seq<char>, c: char) -> Option<int>
    decreases s.len(),
{
    if s.len() == 0 {
        None
    } else if s[s.len() - 1] == c {
        Some(s.len() - 1)
    } else {
        spec_rfind_char(s.drop_last(), c)
    }
}

/// `spec_rfind_char` finds exactly the last occurrence.
pub proof fn lemma_rfind_char_spec(s: Seq<char>, c: char)
    ensures
        match spec_rfind_char(s, c) {
            Some(i) => 0 <= i < s.len() && s[i] == c && forall|j: int|
                i < j < s.len() ==> s[j] != c,
            None => forall|j: int| 0 <= j < s.len() ==> s[j] != c,
        },
    decreases s.len(),
{
    if s.len() > 0 && s[s.len() - 1] != c {
        lemma_rfind_char_spec(s.drop_last(), c);
        let t = s.drop_last();
        match spec_rfind_char(t, c) {
            Some(i) => {
                assert(s[i] == t[i]);
                assert forall|j: int| i < j < s.len() implies s[j] != c by {
                    if j < s.len() - 1 {
                        assert(s[j] == t[j]);
                    }
                }
            },
            None => {
                assert forall|j: int| 0 <= j < s.len() implies s[j] != c by {
                    if j < s.len() - 1 {
                        assert(s[j] == t[j]);
                    }
                }
            },
        }
    }
}

/// Finds the first occurrence, agreeing with `spec_find_char`.
pub fn find_char_eq(s: &Vec<char>, c: char, from: usize) -> (r: Option<usize>)
    requires
        from <= s@.len(),
    ensures
        match r {
            Some(i) => spec_find_char(s@, c, from as int) == Some(i as int) && from <= i
                < s@.len(),
            None => spec_find_char(s@, c, from as int) is None,
        },
{
    let r = find_char_from(s, c, from);
    proof {
        lemma_find_char_spec(s@, c, from as int);
        match r {
            Some(i) => {
                match spec_find_char(s@, c, from as int) {
                    Some(k) => {
                        if k < i {
                            assert(s@[k] == c);
                            assert(false);
                        }
                        if k > i {
                            assert(s@[i as int] != c);
                            assert(false);
                        }
                    },
                    None => {
                        assert(s@[i as int] != c);
                        assert(false);
                    },
                }
            },
            None => {
                match spec_find_char(s@, c, from as int) {
                    Some(k) => {
                        assert(s@[k] == c);
                        assert(false);
                    },
                    None => {},
                }
            },
        }
    }
    r
}

/// Finds the last occurrence, agreeing with `spec_rfind_char`.
fn rfind_char_eq(s: &Vec<char>, c: char) -> (r: Option<usize>)
    ensures
        match r {
            Some(i) => spec_rfind_char(s@, c) == Some(i as int) && i < s@.len(),
            None => spec_rfind_char(s@, c) is None,
        },
{
    let r = rfind_char(s, c);
    proof {
        lemma_rfind_char_spec(s@, c);
        match r {
            Some(i) => {
                match spec_rfind_char(s@, c) {
                    Some(k) => {
                        if k > i {
                            assert(s@[k] == c);
                            assert(false);
                        }
                        if k < i {
                            assert(s@[i as int] != c);
                            assert(false);
                        }
                    },
                    None => {
                        assert(s@[i as int] != c);
                        assert(false);
                    },
                }
            },
            None => {
                match spec_rfind_char(s@, c) {
                    Some(k) => {
                        assert(s@[k] == c);
                        assert(false);
                    },
                    None => {},
                }
            },
        }
    }
    r
}

/// A raw split of `s` on `sep`, as `split_on` describes it.
fn split_char(s: &Vec<char>, sep: char) -> (r: Vec<Vec<char>>)
    ensures
        r@.map_values(|v: Vec<char>| v@) == crate::paths::split_on(s@, sep),
{
    let n = s.len();
    let mut out: Vec<Vec<char>> = Vec::new();
    let mut cur: Vec<char> = Vec::new();
    let ghost mut done: Seq<Seq<char>> = Seq::empty();
    let mut i: usize = 0;
    proof {
        assert(crate::paths::split_on(s@.subrange(0, 0), sep) =~= seq![Seq::<char>::empty()]);
        assert(done.push(cur@) =~= seq![Seq::<char>::empty()]);
        assert(out@.map_values(|v: Vec<char>| v@) =~= done);
    }
    while i < n
        invariant
            n == s@.len(),
            i <= n,
            crate::paths::split_on(s@.subrange(0, i as int), sep) == done.push(cur@),
            out@.map_values(|v: Vec<char>| v@) == done,
        decreases n - i,
    {
        let c = s[i];
        proof {
            assert(s@.subrange(0, i + 1 as int) =~= s@.subrange(0, i as int).push(c));
            crate::paths::lemma_split_on_push(s@.subrange(0, i as int), sep, c);
        }
        if c == sep {
            out.push(cur);
            proof {
                done = done.push(
                    crate::paths::split_on(s@.subrange(0, i as int), sep).last(),
                );
                assert(out@.map_values(|v: Vec<char>| v@) =~= done);
                assert(done.push(Seq::<char>::empty()) =~= crate::paths::split_on(
                    s@.subrange(0, i + 1 as int),
                    sep,
                ));
            }
            cur = Vec::new();
        } else {
            cur.push(c);
            proof {
                let prev = crate::paths::split_on(s@.subrange(0, i as int), sep);
                assert(prev.update(prev.len() - 1, prev.last().push(c)) =~= done.push(cur@));
            }
        }
        i = i + 1;
    }
    out.push(cur);
    proof {
        assert(s@.subrange(0, n as int) =~= s@);
        assert(out@.map_values(|v: Vec<char>| v@) =~= done.push(cur@));
    }
    out
}

/// A line with any trailing carriage return removed.
pub open spec fn spec_strip_cr(l: Seq<char>) -> Seq<char> {
    if l.len() > 0 && l[l.len() - 1] == '\r' {
        l.drop_last()
    } else {
        l
    }
}

/// The lines of a text: split on newlines, each stripped of a trailing
/// carriage return, a trailing newline producing no final empty line.
pub open spec fn spec_lines(s: Seq<char>) -> Seq<Seq<char>> {
    if s.len() == 0 {
        Seq::empty()
    } else {
        let raw = crate::paths::split_on(s, '\n');
        let kept = if raw.last().len() == 0 {
            raw.drop_last()
        } else {
            raw
        };
        kept.map_values(|l: Seq<char>| spec_strip_cr(l))
    }
}

/// Splits a text into its lines.
pub fn split_lines(s: &Vec<char>) -> (r: Vec<Vec<char>>)
    ensures
        r@.map_values(|v: Vec<char>| v@) == spec_lines(s@),
{
    if s.len() == 0 {
        let r: Vec<Vec<char>> = Vec::new();
        proof {
            assert(r@.map_values(|v: Vec<char>| v@) =~= spec_lines(s@));
        }
        return r;
    }
    let raw = split_char(s, '\n');
    let ghost raw_view = crate::paths::split_on(s@, '\n');
    proof {
        crate::paths::lemma_split_on_nonempty(s@, '\n');
    }
    let m = raw.len();
    proof {
        assert(raw@.map_values(|v: Vec<char>| v@).len() == m);
    }
    let keep_count: usize = if raw[m - 1].len() == 0 {
        m - 1
    } else {
        m
    };
    let ghost kept = if raw_view.last().len() == 0 {
        raw_view.drop_last()
    } else {
        raw_view
    };
    proof {
        assert(raw@.map_values(|v: Vec<char>| v@)[m - 1] == raw@[m - 1]@);
        assert(kept.len() == keep_count);
        assert(forall|j: int| 0 <= j < keep_count ==> kept[j] == raw@.map_values(
            |v: Vec<char>| v@,
        )[j]);
    }
    let mut out: Vec<Vec<char>> = Vec::new();
    let mut i: usize = 0;
    while i < keep_count
        invariant
            keep_count <= raw@.len(),
            i <= keep_count,
            kept.len() == keep_count,
            forall|j: int| 0 <= j < keep_count ==> kept[j] == raw@[j]@,
            out@.len() == i,
            forall|j: int| 0 <= j < i ==> (#[trigger] out@[j])@ == spec_strip_cr(kept[j]),
        decreases keep_count - i,
    {
        let line = &raw[i];
        let ln = line.len();
        let stripped: Vec<char> = if ln > 0 && line[ln - 1] == '\r' {
            sub_chars(line, 0, ln - 1)
        } else {
            sub_chars(line, 0, ln)
        };
        proof {
            assert(line@.subrange(0, line@.len() as int) =~= line@);
            if ln > 0 && line@[ln - 1] == '\r' {
                assert(line@.subrange(0, ln - 1 as int) =~= line@.drop_last());
            }
            assert(stripped@ == spec_strip_cr(kept[i as int]));
        }
        out.push(stripped);
        i = i + 1;
    }
    proof {
        assert(out@.map_values(|v: Vec<char>| v@) =~= kept.map_values(
            |l: Seq<char>| spec_strip_cr(l),
        ));
    }
    out
}

/// The predicate keeping non-empty name segments.
pub open spec fn nonempty_pred() -> spec_fn(Seq<char>) -> bool {
    |x: Seq<char>| x.len() > 0
}

/// Trimming as a function value.
pub open spec fn trim_fn() -> spec_fn(Seq<char>) -> Seq<char> {
    |x: Seq<char>| spec_trim(x)
}

/// Splits on `sep`, trims each piece and keeps the non-empty ones.
fn split_trimmed_nonempty(s: &Vec<char>, sep: char) -> (r: Vec<Vec<char>>)
    ensures
        r@.map_values(|v: Vec<char>| v@) == crate::paths::split_on(s@, sep).map_values(
            trim_fn(),
        ).filter(nonempty_pred()),
{
    broadcast use vstd::seq_lib::group_filter_ensures;

    let parts = split_char(s, sep);
    let ghost split_view = crate::paths::split_on(s@, sep);
    let n = parts.len();
    proof {
        assert(parts@.map_values(|v: Vec<char>| v@).len() == n);
    }
    let mut out: Vec<Vec<char>> = Vec::new();
    let mut i: usize = 0;
    proof {
        assert(split_view.subrange(0, 0).map_values(trim_fn()) =~= Seq::<Seq<char>>::empty());
        reveal(Seq::filter);
        assert(out@.map_values(|v: Vec<char>| v@) =~= split_view.subrange(0, 0).map_values(
            trim_fn(),
        ).filter(nonempty_pred()));
    }
    while i < n
        invariant
            n == split_view.len(),
            n == parts@.len(),
            i <= n,
            forall|j: int| 0 <= j < n ==> split_view[j] == (#[trigger] parts@[j])@,
            out@.map_values(|v: Vec<char>| v@) == split_view.subrange(0, i as int).map_values(
                trim_fn(),
            ).filter(nonempty_pred()),
        decreases n - i,
    {
        let piece = trim_chars(&parts[i]);
        proof {
            let pre = split_view.subrange(0, i as int).map_values(trim_fn());
            let post = split_view.subrange(0, i + 1 as int).map_values(trim_fn());
            assert(post.drop_last() =~= pre);
            assert(post.last() == spec_trim(split_view[i as int]));
            assert(post =~= pre.push(spec_trim(split_view[i as int])));
            pre.lemma_filter_push(spec_trim(split_view[i as int]), nonempty_pred());
        }
        if piece.len() > 0 {
            out.push(piece);
            proof {
                assert(out@.map_values(|v: Vec<char>| v@) =~= split_view.subrange(
                    0,
                    i + 1 as int,
                ).map_values(trim_fn()).filter(nonempty_pred()));
            }
        } else {
            proof {
                assert(out@.map_values(|v: Vec<char>| v@) =~= split_view.subrange(
                    0,
                    i + 1 as int,
                ).map_values(trim_fn()).filter(nonempty_pred()));
            }
        }
        i = i + 1;
    }
    proof {
        assert(split_view.subrange(0, n as int) =~= split_view);
    }
    out
}

/// The canonical component export line for `name` re-exported from `path`.
pub open spec fn canon_component_line(name: Seq<char>, path: Seq<char>) -> Seq<char> {
    "export { default as "@ + name + " } from \""@ + path + "\";"@
}

/// The canonical type export line for `name` re-exported from `path`.
pub open spec fn canon_type_line(name: Seq<char>, path: Seq<char>) -> Seq<char> {
    "export type { "@ + name + " } from \""@ + path + "\";"@
}

/// How a line of an existing barrel is read as a component export: after
/// trimming it must carry the component prefix, a ` } from ` separator
/// just before the first double quote, and end in a quoted path; the
/// parsed name is trimmed.
pub open spec fn spec_parse_component_line(line: Seq<char>) -> Option<(Seq<char>, Seq<char>)> {
    let t = spec_trim(line);
    let p = "export { default as "@;
    let m = " } from "@;
    if t.len() < p.len() || t.subrange(0, p.len() as int) != p {
        None
    } else {
        match spec_find_char(t, '"', p.len() as int) {
            None => None,
            Some(q) => {
                if q >= p.len() + m.len() && t.subrange(q - m.len(), q) == m && t.len() >= q + 3
                    && t[t.len() - 2] == '"' && t[t.len() - 1] == ';' {
                    Some(
                        (
                            spec_trim(t.subrange(p.len() as int, q - m.len())),
                            t.subrange(q + 1, t.len() - 2),
                        ),
                    )
                } else {
                    None
                }
            },
        }
    }
}

/// How a line of an existing barrel is read as a type export: after
/// trimming it must carry the type prefix, a `} from ` separator just
/// before the first double quote, and end in a quoted path; the names
/// between are comma-split, trimmed, and kept when non-empty.
pub open spec fn spec_parse_type_line(line: Seq<char>) -> Option<(Seq<Seq<char>>, Seq<char>)> {
    let t = spec_trim(line);
    let p = "export type {"@;
    let m = "} from "@;
    if t.len() < p.len() || t.subrange(0, p.len() as int) != p {
        None
    } else {
        match spec_find_char(t, '"', p.len() as int) {
            None => None,
            Some(q) => {
                if q >= p.len() + m.len() && t.subrange(q - m.len(), q) == m && t.len() >= q + 3
                    && t[t.len() - 2] == '"' && t[t.len() - 1] == ';' {
                    Some(
                        (
                            crate::paths::split_on(
                                t.subrange(p.len() as int, q - m.len()),
                                ',',
                            ).map_values(trim_fn()).filter(nonempty_pred()),
                            t.subrange(q + 1, t.len() - 2),
                        ),
                    )
                } else {
                    None
                }
            },
        }
    }
}

/// Reads one line as a component export.
fn parse_component_line(line: &Vec<char>) -> (r: Option<(Vec<char>, Vec<char>)>)
    ensures
        match r {
            Some(np) => spec_parse_component_line(line@) == Some((np.0@, np.1@)),
            None => spec_parse_component_line(line@) is None,
        },
{
    let t = trim_chars(line);
    let prefix = chars_of("export { default as ");
    let plen = prefix.len();
    let tn = t.len();
    if tn < plen || !starts_with_at(&t, &prefix, 0) {
        proof {
            if tn >= plen {
                assert(t@.subrange(0, plen as int) != prefix@);
            }
        }
        return None;
    }
    proof {
        assert(t@.subrange(0, plen as int) == prefix@);
    }
    match find_char_eq(&t, '"', plen) {
        None => None,
        Some(q) => {
            let m = chars_of(" } from ");
            let mlen = m.len();
            if q >= mlen && q - mlen >= plen && starts_with_at(&t, &m, q - mlen) && tn >= 3 && q
                <= tn - 3 && t[tn - 2] == '"' && t[tn - 1] == ';' {
                proof {
                    assert(t@.subrange(q - m@.len(), q as int) == m@);
                }
                let name = trim_chars(&sub_chars(&t, plen, q - mlen));
                let path = sub_chars(&t, q + 1, tn - 2);
                Some((name, path))
            } else {
                proof {
                    if q >= plen + mlen && q + 3 <= tn && !match_at(t@, m@, (q - mlen) as int) {
                        assert(t@.subrange(q - m@.len(), q as int) != m@);
                    }
                }
                None
            }
        },
    }
}

/// Reads one line as a type export.
fn parse_type_line(line: &Vec<char>) -> (r: Option<(Vec<Vec<char>>, Vec<char>)>)
    ensures
        match r {
            Some(np) => spec_parse_type_line(line@) == Some(
                (np.0@.map_values(|v: Vec<char>| v@), np.1@),
            ),
            None => spec_parse_type_line(line@) is None,
        },
{
    let t = trim_chars(line);
    let prefix = chars_of("export type {");
    let plen = prefix.len();
    let tn = t.len();
    if tn < plen || !starts_with_at(&t, &prefix, 0) {
        proof {
            if tn >= plen {
                assert(t@.subrange(0, plen as int) != prefix@);
            }
        }
        return None;
    }
    proof {
        assert(t@.subrange(0, plen as int) == prefix@);
    }
    match find_char_eq(&t, '"', plen) {
        None => None,
        Some(q) => {
            let m = chars_of("} from ");
            let mlen = m.len();
            if q >= mlen && q - mlen >= plen && starts_with_at(&t, &m, q - mlen) && tn >= 3 && q
                <= tn - 3 && t[tn - 2] == '"' && t[tn - 1] == ';' {
                proof {
                    assert(t@.subrange(q - m@.len(), q as int) == m@);
                }
                let names_raw = sub_chars(&t, plen, q - mlen);
                let names = split_trimmed_nonempty(&names_raw, ',');
                let path = sub_chars(&t, q + 1, tn - 2);
                Some((names, path))
            } else {
                proof {
                    if q >= plen + mlen && q + 3 <= tn && !match_at(t@, m@, (q - mlen) as int) {
                        assert(t@.subrange(q - m@.len(), q as int) != m@);
                    }
                }
                None
            }
        },
    }
}

/// Builds the canonical component export line.
fn build_component_line(name: &Vec<char>, path: &Vec<char>) -> (r: String)
    ensures
        r@ == canon_component_line(name@, path@),
{
    let mut out: Vec<char> = Vec::new();
    push_str_chars(&mut out, "export { default as ");
    push_chars(&mut out, name);
    push_str_chars(&mut out, " } from \"");
    push_chars(&mut out, path);
    push_str_chars(&mut out, "\";");
    string_from_chars(&out)
}

/// Builds the canonical type export line.
fn build_type_line(name: &Vec<char>, path: &Vec<char>) -> (r: String)
    ensures
        r@ == canon_type_line(name@, path@),
{
    let mut out: Vec<char> = Vec::new();
    push_str_chars(&mut out, "export type { ");
    push_chars(&mut out, name);
    push_str_chars(&mut out, " } from \"");
    push_chars(&mut out, path);
    push_str_chars(&mut out, "\";");
    string_from_chars(&out)
}

/// Inserting the canonical type line for each name in turn.
pub open spec fn spec_insert_type_names(
    t: Seq<(Seq<char>, Seq<char>)>,
    names: Seq<Seq<char>>,
    path: Seq<char>,
) -> Seq<(Seq<char>, Seq<char>)>
    decreases names.len(),
{
    if names.len() == 0 {
        t
    } else {
        spec_insert_type_names(
            spec_assoc_insert(t, names[0], canon_type_line(names[0], path)),
            names.drop_first(),
            path,
        )
    }
}

/// One line of an existing barrel folded into the two export maps.
pub open spec fn spec_apply_barrel_line(
    c: Seq<(Seq<char>, Seq<char>)>,
    t: Seq<(Seq<char>, Seq<char>)>,
    line: Seq<char>,
) -> (Seq<(Seq<char>, Seq<char>)>, Seq<(Seq<char>, Seq<char>)>) {
    match spec_parse_component_line(line) {
        Some(np) => (spec_assoc_insert(c, np.0, canon_component_line(np.0, np.1)), t),
        None => match spec_parse_type_line(line) {
            Some(np) => (c, spec_insert_type_names(t, np.0, np.1)),
            None => (c, t),
        },
    }
}

/// An existing barrel text read into its component and type export maps.
pub open spec fn spec_parse_barrel(lines: Seq<Seq<char>>) -> (
    Seq<(Seq<char>, Seq<char>)>,
    Seq<(Seq<char>, Seq<char>)>,
)
    decreases lines.len(),
{
    if lines.len() == 0 {
        (Seq::empty(), Seq::empty())
    } else {
        let prev = spec_parse_barrel(lines.drop_last());
        spec_apply_barrel_line(prev.0, prev.1, lines.last())
    }
}

/// The two name-keyed maps of barrel export lines.
pub struct BarrelExports {
    pub components: StrMap,
    pub types: StrMap,
}

impl BarrelExports {
    pub open spec fn wf(&self) -> bool {
        self.components.wf() && self.types.wf()
    }

    /// Both maps empty.
    pub fn is_empty(&self) -> (r: bool)
        requires
            self.wf(),
        ensures
            r == (self.components@.len() == 0 && self.types@.len() == 0),
    {
        self.components.len() == 0 && self.types.len() == 0
    }

    /// The barrel text: component lines then type lines, each map in
    /// ascending name order, one line per export.
    pub fn render(&self) -> (r: String)
        requires
            self.wf(),
        ensures
            r@ == spec_render_entries(self.components@) + spec_render_entries(self.types@),
    {
        let mut out: Vec<char> = Vec::new();
        let n = self.components.len();
        let mut i: usize = 0;
        proof {
            assert(self.components@.subrange(0, 0) =~= Seq::<(Seq<char>, Seq<char>)>::empty());
            assert(out@ =~= spec_render_entries(self.components@.subrange(0, 0)));
        }
        while i < n
            invariant
                self.wf(),
                n == self.components@.len(),
                i <= n,
                out@ == spec_render_entries(self.components@.subrange(0, i as int)),
            decreases n - i,
        {
            let line = self.components.val_at(i);
            push_str_chars(&mut out, line.as_str());
            out.push('\n');
            proof {
                let pre = self.components@.subrange(0, i as int);
                let post = self.components@.subrange(0, i + 1 as int);
                assert(post.drop_last() =~= pre);
                assert(post.last() == self.components@[i as int]);
                assert(out@ =~= spec_render_entries(post));
            }
            i = i + 1;
        }
        proof {
            assert(self.components@.subrange(0, n as int) =~= self.components@);
        }
        let m = self.types.len();
        let mut j: usize = 0;
        proof {
            assert(self.types@.subrange(0, 0) =~= Seq::<(Seq<char>, Seq<char>)>::empty());
            assert(out@ =~= spec_render_entries(self.components@) + spec_render_entries(
                self.types@.subrange(0, 0),
            ));
        }
        while j < m
            invariant
                self.wf(),
                m == self.types@.len(),
                j <= m,
                out@ == spec_render_entries(self.components@) + spec_render_entries(
                    self.types@.subrange(0, j as int),
                ),
            decreases m - j,
        {
            let line = self.types.val_at(j);
            push_str_chars(&mut out, line.as_str());
            out.push('\n');
            proof {
                let pre = self.types@.subrange(0, j as int);
                let post = self.types@.subrange(0, j + 1 as int);
                assert(post.drop_last() =~= pre);
                assert(post.last() == self.types@[j as int]);
                assert(out@ =~= spec_render_entries(self.components@) + spec_render_entries(
                    post,
                ));
            }
            j = j + 1;
        }
        proof {
            assert(self.types@.subrange(0, m as int) =~= self.types@);
        }
        string_from_chars(&out)
    }
}

/// The text of an export map rendered one line per entry.
pub open spec fn spec_render_entries(s: Seq<(Seq<char>, Seq<char>)>) -> Seq<char>
    decreases s.len(),
{
    if s.len() == 0 {
        Seq::<char>::empty()
    } else {
        spec_render_entries(s.drop_last()) + s.last().1 + seq!['\n']
    }
}

/// Reads an existing barrel text into its export maps: one recognised
/// export per line, later lines overriding earlier ones of the same name.
pub fn parse_export_map(contents: &str) -> (r: BarrelExports)
    ensures
        r.wf(),
        r.components@ == spec_parse_barrel(spec_lines(contents@)).0,
        r.types@ == spec_parse_barrel(spec_lines(contents@)).1,
{
    let chars = chars_of(contents);
    let lines = split_lines(&chars);
    let ghost lines_view = spec_lines(contents@);
    let n = lines.len();
    proof {
        assert(lines@.map_values(|v: Vec<char>| v@).len() == n);
    }
    let mut components = StrMap::new();
    let mut types = StrMap::new();
    let mut i: usize = 0;
    proof {
        assert(lines_view.subrange(0, 0) =~= Seq::<Seq<char>>::empty());
    }
    while i < n
        invariant
            n == lines@.len(),
            lines_view == lines@.map_values(|v: Vec<char>| v@),
            i <= n,
            components.wf(),
            types.wf(),
            components@ == spec_parse_barrel(lines_view.subrange(0, i as int)).0,
            types@ == spec_parse_barrel(lines_view.subrange(0, i as int)).1,
        decreases n - i,
    {
        proof {
            assert(lines_view[i as int] == lines@[i as int]@);
            assert(lines_view.subrange(0, i + 1 as int).drop_last() =~= lines_view.subrange(
                0,
                i as int,
            ));
            assert(lines_view.subrange(0, i + 1 as int).last() == lines_view[i as int]);
        }
        match parse_component_line(&lines[i]) {
            Some(np) => {
                let (name, path) = np;
                let line_text = build_component_line(&name, &path);
                let name_text = string_from_chars(&name);
                components.insert(name_text, line_text);
            },
            None => {
                match parse_type_line(&lines[i]) {
                    Some(np) => {
                        let (names, path) = np;
                        let ghost t0 = types@;
                        let ghost names_view = names@.map_values(|v: Vec<char>| v@);
                        let m = names.len();
                        let mut k: usize = 0;
                        proof {
                            assert(names_view.skip(0) =~= names_view);
                        }
                        while k < m
                            invariant
                                m == names@.len(),
                                names_view == names@.map_values(|v: Vec<char>| v@),
                                k <= m,
                                types.wf(),
                                spec_insert_type_names(types@, names_view.skip(k as int), path@)
                                    == spec_insert_type_names(t0, names_view, path@),
                            decreases m - k,
                        {
                            proof {
                                assert(names_view.skip(k as int)[0] == names_view[k as int]);
                                assert(names_view[k as int] == names@[k as int]@);
                                assert(names_view.skip(k as int).drop_first()
                                    =~= names_view.skip(k + 1));
                            }
                            let name_text = string_from_chars(&names[k]);
                            let line_text = build_type_line(&names[k], &path);
                            types.insert(name_text, line_text);
                            k = k + 1;
                        }
                        proof {
                            assert(names_view.skip(m as int).len() == 0);
                        }
                    },
                    None => {
                    },
                }
            },
        }
        i = i + 1;
    }
    proof {
        assert(lines_view.subrange(0, n as int) =~= lines_view);
    }
    BarrelExports { components, types }
}

/// The directory holding the barrel: the path up to its last slash, or
/// the workspace root when it has none.
pub open spec fn spec_barrel_dir(root: Seq<char>, barrel_path: Seq<char>) -> Seq<char> {
    match spec_rfind_char(barrel_path, '/') {
        Some(i) => barrel_path.subrange(0, i),
        None => root,
    }
}

/// One component export merged into the map: the canonical line is stored
/// under the export name when absent or different, which counts as a
/// modification; an entry that already carries the same line is left
/// alone.
pub open spec fn spec_merge_one(
    c: Seq<(Seq<char>, Seq<char>)>,
    modified: bool,
    name: Seq<char>,
    line: Seq<char>,
) -> (Seq<(Seq<char>, Seq<char>)>, bool) {
    match spec_assoc_get(c, name) {
        Some(existing) => {
            if existing == line {
                (c, modified)
            } else {
                (spec_assoc_insert(c, name, line), true)
            }
        },
        None => (spec_assoc_insert(c, name, line), true),
    }
}

/// The component export specs folded into the component map, in order.
pub open spec fn spec_merge_components(
    c: Seq<(Seq<char>, Seq<char>)>,
    modified: bool,
    comps: Seq<ComponentExportSpec>,
    root: Seq<char>,
    base: Seq<char>,
    barrel_dir: Seq<char>,
) -> (Seq<(Seq<char>, Seq<char>)>, bool)
    decreases comps.len(),
{
    if comps.len() == 0 {
        (c, modified)
    } else {
        let prev = spec_merge_components(c, modified, comps.drop_last(), root, base, barrel_dir);
        let last = comps.last();
        match spec_import_path(root, base, barrel_dir, last.entry_path@) {
            None => prev,
            Some(imp) => spec_merge_one(
                prev.0,
                prev.1,
                last.export_name@,
                canon_component_line(last.export_name@, imp),
            ),
        }
    }
}

/// The names of one type export spec folded into the type map; empty
/// names are skipped.
pub open spec fn spec_merge_type_names(
    t: Seq<(Seq<char>, Seq<char>)>,
    modified: bool,
    names: Seq<Seq<char>>,
    imp: Seq<char>,
) -> (Seq<(Seq<char>, Seq<char>)>, bool)
    decreases names.len(),
{
    if names.len() == 0 {
        (t, modified)
    } else {
        let first = names[0];
        let next = if first.len() == 0 {
            (t, modified)
        } else {
            spec_merge_one(t, modified, first, canon_type_line(first, imp))
        };
        spec_merge_type_names(next.0, next.1, names.drop_first(), imp)
    }
}

/// The type export specs folded into the type map, in order.
pub open spec fn spec_merge_types(
    t: Seq<(Seq<char>, Seq<char>)>,
    modified: bool,
    types: Seq<TypeExportSpec>,
    root: Seq<char>,
    base: Seq<char>,
    barrel_dir: Seq<char>,
) -> (Seq<(Seq<char>, Seq<char>)>, bool)
    decreases types.len(),
{
    if types.len() == 0 {
        (t, modified)
    } else {
        let prev = spec_merge_types(t, modified, types.drop_last(), root, base, barrel_dir);
        let last = types.last();
        match spec_import_path(root, base, barrel_dir, last.entry_path@) {
            None => prev,
            Some(imp) => spec_merge_type_names(
                prev.0,
                prev.1,
                last.export_names@.map_values(|s: String| s@),
                imp,
            ),
        }
    }
}

/// What rendering the barrel produces: nothing when there are no export
/// specs, or when merging them into the parsed existing text changes no
/// entry; otherwise the full rendered text of the merged maps.
pub open spec fn spec_render_component_barrel(
    root: Seq<char>,
    config: Config,
    comps: Seq<ComponentExportSpec>,
    types: Seq<TypeExportSpec>,
    existing: Seq<char>,
) -> Option<Seq<char>> {
    if comps.len() == 0 && types.len() == 0 {
        None
    } else {
        let barrel_path = spec_workspace_path(root, config.exports.components.barrel@);
        let bdir = spec_barrel_dir(root, barrel_path);
        let base = config.aliases.components.filesystem@;
        let parsed = spec_parse_barrel(spec_lines(existing));
        let cm = spec_merge_components(parsed.0, false, comps, root, base, bdir);
        let tm = spec_merge_types(parsed.1, cm.1, types, root, base, bdir);
        if tm.1 && (cm.0.len() + tm.0.len() > 0) {
            Some(spec_render_entries(cm.0) + spec_render_entries(tm.0))
        } else {
            None
        }
    }
}

/// Merges one export line into a map, reporting whether it changed.
fn merge_line(map: &mut StrMap, name: &Vec<char>, line: String) -> (r: bool)
    requires
        old(map).wf(),
    ensures
        final(map).wf(),
        (final(map)@, r) == spec_merge_one(old(map)@, false, name@, line@),
{
    let name_text = string_from_chars(name);
    let changed: bool = match map.get(name_text.as_str()) {
        Some(existing) => {
            let a = chars_of(existing.as_str());
            let b = chars_of(line.as_str());
            !chars_eq(&a, &b)
        },
        None => true,
    };
    if changed {
        map.insert(name_text, line);
    }
    changed
}

/// Merges new component and type exports into the existing barrel text:
/// `None` when nothing changes (including when both input lists are
/// empty), else the merged text, deterministically ordered by export name.
pub fn render_component_barrel(
    workspace_root: &str,
    config: &Config,
    components: &Vec<ComponentExportSpec>,
    type_exports: &Vec<TypeExportSpec>,
    existing: &str,
) -> (r: Option<String>)
    ensures
        match r {
            Some(text) => spec_render_component_barrel(workspace_root@, *config, components@,
            type_exports@, existing@) == Some(text@),
            None => spec_render_component_barrel(workspace_root@, *config, components@,
            type_exports@, existing@) is None,
        },
{
    if components.len() == 0 && type_exports.len() == 0 {
        return None;
    }
    let mut maps = parse_export_map(existing);
    let mut modified: bool = false;
    let barrel_path = workspace_path(workspace_root, config.exports.components.barrel.as_str());
    let bp_chars = chars_of(barrel_path.as_str());
    let barrel_dir: String = match rfind_char_eq(&bp_chars, '/') {
        Some(i) => {
            let d = sub_chars(&bp_chars, 0, i);
            string_from_chars(&d)
        },
        None => {
            let rc = chars_of(workspace_root);
            string_from_chars(&rc)
        },
    };
    let ghost root_v = workspace_root@;
    let ghost base_v = config.aliases.components.filesystem@;
    let ghost bdir_v = barrel_dir@;
    proof {
        assert(bdir_v == spec_barrel_dir(root_v, spec_workspace_path(
            root_v,
            config.exports.components.barrel@,
        )));
    }
    let n = components.len();
    let mut i: usize = 0;
    proof {
        assert(components@.subrange(0, 0) =~= Seq::<ComponentExportSpec>::empty());
    }
    while i < n
        invariant
            n == components@.len(),
            i <= n,
            maps.wf(),
            (maps.components@, modified) == spec_merge_components(
                spec_parse_barrel(spec_lines(existing@)).0,
                false,
                components@.subrange(0, i as int),
                root_v,
                base_v,
                bdir_v,
            ),
            maps.types@ == spec_parse_barrel(spec_lines(existing@)).1,
            root_v == workspace_root@,
            base_v == config.aliases.components.filesystem@,
            bdir_v == barrel_dir@,
        decreases n - i,
    {
        proof {
            assert(components@.subrange(0, i + 1 as int).drop_last() =~= components@.subrange(
                0,
                i as int,
            ));
            assert(components@.subrange(0, i + 1 as int).last() == components@[i as int]);
        }
        let spec_entry = &components[i];
        match compute_import_path(
            workspace_root,
            config.aliases.components.filesystem.as_str(),
            barrel_dir.as_str(),
            spec_entry.entry_path.as_str(),
        ) {
            Some(imp) => {
                let name = chars_of(spec_entry.export_name.as_str());
                let impc = chars_of(imp.as_str());
                let line = build_component_line(&name, &impc);
                let ghost pre = maps.components@;
                let ghost premod = modified;
                let changed = merge_line(&mut maps.components, &name, line);
                if changed {
                    modified = true;
                }
                proof {
                    let target = spec_merge_one(pre, premod, name@, canon_component_line(
                        name@,
                        imp@,
                    ));
                    assert((maps.components@, modified) == target);
                }
            },
            None => {
            },
        }
        i = i + 1;
    }
    proof {
        assert(components@.subrange(0, n as int) =~= components@);
    }
    let ghost t0 = maps.types@;
    let ghost cm_final = maps.components@;
    let ghost mod_after_components = modified;
    let tn = type_exports.len();
    let mut j: usize = 0;
    proof {
        assert(type_exports@.subrange(0, 0) =~= Seq::<TypeExportSpec>::empty());
    }
    while j < tn
        invariant
            tn == type_exports@.len(),
            j <= tn,
            maps.wf(),
            maps.components@ == cm_final,
            (maps.types@, modified) == spec_merge_types(
                t0,
                mod_after_components,
                type_exports@.subrange(0, j as int),
                root_v,
                base_v,
                bdir_v,
            ),
            root_v == workspace_root@,
            base_v == config.aliases.components.filesystem@,
            bdir_v == barrel_dir@,
        decreases tn - j,
    {
        proof {
            assert(type_exports@.subrange(0, j + 1 as int).drop_last() =~= type_exports@
                .subrange(0, j as int));
            assert(type_exports@.subrange(0, j + 1 as int).last() == type_exports@[j as int]);
        }
        let spec_entry = &type_exports[j];
        match compute_import_path(
            workspace_root,
            config.aliases.components.filesystem.as_str(),
            barrel_dir.as_str(),
            spec_entry.entry_path.as_str(),
        ) {
            Some(imp) => {
                let impc = chars_of(imp.as_str());
                let ghost names_view = spec_entry.export_names@.map_values(|s: String| s@);
                let m = spec_entry.export_names.len();
                let mut k: usize = 0;
                let ghost tk0 = maps.types@;
                let ghost modk0 = modified;
                proof {
                    assert(names_view.skip(0) =~= names_view);
                }
                while k < m
                    invariant
                        m == spec_entry.export_names@.len(),
                        names_view == spec_entry.export_names@.map_values(|s: String| s@),
                        k <= m,
                        maps.wf(),
                        maps.components@ == cm_final,
                        impc@ == imp@,
                        spec_merge_type_names(maps.types@, modified, names_view.skip(
                            k as int,
                        ), imp@) == spec_merge_type_names(tk0, modk0, names_view, imp@),
                    decreases m - k,
                {
                    proof {
                        assert(names_view.skip(k as int)[0] == names_view[k as int]);
                        assert(names_view[k as int] == spec_entry.export_names@[k as int]@);
                        assert(names_view.skip(k as int).drop_first() =~= names_view.skip(
                            k + 1,
                        ));
                    }
                    let name = chars_of(spec_entry.export_names[k].as_str());
                    if name.len() > 0 {
                        let line = build_type_line(&name, &impc);
                        let ghost pre = maps.types@;
                        let ghost premod = modified;
                        let changed = merge_line(&mut maps.types, &name, line);
                        if changed {
                            modified = true;
                        }
                        proof {
                            let target = spec_merge_one(pre, premod, name@, canon_type_line(
                                name@,
                                imp@,
                            ));
                            assert((maps.types@, modified) == target);
                        }
                    }
                    k = k + 1;
                }
                proof {
                    assert(names_view.skip(m as int).len() == 0);
                }
            },
            None => {
            },
        }
        j = j + 1;
    }
    proof {
        assert(type_exports@.subrange(0, tn as int) =~= type_exports@);
    }
    let any = !maps.is_empty();
    if modified && any {
        Some(maps.render())
    } else {
        None
    }
}

/// No resolved destination escapes the workspace root: it is the root
/// itself, or the root extended by `/` and named path segments only —
/// never a parent-directory reference, however the catalog spells the
/// file's path.
pub proof fn lemma_destination_inside_workspace(
    root: Seq<char>,
    config: Config,
    file: ComponentFileRecord,
)
    ensures
        ({
            let d = spec_resolve_destination(root, config, file);
            ||| d == root
            ||| {
                &&& d.len() > root.len()
                &&& d.subrange(0, root.len() as int) == root
                &&& d[root.len() as int] == '/'
                &&& forall|i: int|
                    crate::paths::split_on(root, '/').len() <= i < crate::paths::split_on(
                        d,
                        '/',
                    ).len() ==> crate::paths::keep_segment(
                        #[trigger] crate::paths::split_on(d, '/')[i],
                    )
            }
        }),
{
    let base = spec_target_base(config, opt_string_view(file.target));
    let sb = spec_sanitize(base);
    let rel = spec_sanitize(spec_strip_category(file.path@));
    let d = spec_resolve_destination(root, config, file);
    crate::paths::lemma_sanitize_kept_and_clean(base);
    crate::paths::lemma_sanitize_kept_and_clean(spec_strip_category(file.path@));
    if sb.len() == 0 && rel.len() == 0 {
        assert(d == root);
    } else if sb.len() == 0 {
        assert(d =~= root + seq!['/'] + rel);
        crate::paths::lemma_split_on_concat(root, rel, '/');
        lemma_extension_kept(root, rel, d);
    } else if rel.len() == 0 {
        assert(d =~= root + seq!['/'] + sb);
        crate::paths::lemma_split_on_concat(root, sb, '/');
        lemma_extension_kept(root, sb, d);
    } else {
        assert(d =~= root + seq!['/'] + (sb + seq!['/'] + rel));
        crate::paths::lemma_split_on_concat(root, sb + seq!['/'] + rel, '/');
        crate::paths::lemma_split_on_concat(sb, rel, '/');
        lemma_extension_kept(root, sb + seq!['/'] + rel, d);
    }
}

/// When every split segment of the extension is kept, the combined path
/// extends the root by kept segments only.
proof fn lemma_extension_kept(root: Seq<char>, ext: Seq<char>, d: Seq<char>)
    requires
        d == root + seq!['/'] + ext,
        crate::paths::split_on(d, '/') == crate::paths::split_on(root, '/')
            + crate::paths::split_on(ext, '/'),
        forall|i: int|
            0 <= i < crate::paths::split_on(ext, '/').len() ==> crate::paths::keep_segment(
                #[trigger] crate::paths::split_on(ext, '/')[i],
            ),
    ensures
        d.len() > root.len(),
        d.subrange(0, root.len() as int) == root,
        d[root.len() as int] == '/',
        forall|i: int|
            crate::paths::split_on(root, '/').len() <= i < crate::paths::split_on(d, '/').len()
                ==> crate::paths::keep_segment(#[trigger] crate::paths::split_on(d, '/')[i]),
{
    assert(d.subrange(0, root.len() as int) =~= root);
    assert forall|i: int|
        crate::paths::split_on(root, '/').len() <= i < crate::paths::split_on(d, '/').len()
            implies crate::paths::keep_segment(#[trigger] crate::paths::split_on(d, '/')[i]) by {
        let rl = crate::paths::split_on(root, '/').len();
        assert(crate::paths::split_on(d, '/')[i] == crate::paths::split_on(ext, '/')[i - rl]);
    }
}

/// An export name that renders into a line the parser reads back intact:
/// trim-stable, holding no double quote and no newline.
pub open spec fn clean_export_name(n: Seq<char>) -> bool {
    spec_trim(n) == n && forall|i: int| 0 <= i < n.len() ==> n[i] != '"' && n[i] != '\n'
}

/// A type export name additionally has to be non-empty and comma-free,
/// since type lines carry comma-joined name lists.
pub open spec fn clean_type_name(n: Seq<char>) -> bool {
    clean_export_name(n) && n.len() > 0 && forall|i: int| 0 <= i < n.len() ==> n[i] != ','
}

/// An import path that stays on its barrel line.
pub open spec fn clean_import_path(p: Seq<char>) -> bool {
    forall|i: int| 0 <= i < p.len() ==> p[i] != '\n'
}

/// The concrete characters of the barrel line delimiters.
proof fn lemma_barrel_literals()
    ensures
        ("export { default as "@).len() == 20,
        (" } from \""@).len() == 9,
        ("\";"@).len() == 2,
        (" } from "@).len() == 8,
        (" } from \""@) == (" } from "@) + seq!['"'],
        forall|i: int|
            0 <= i < 20 ==> ("export { default as "@)[i] != '"' && (
            "export { default as "@)[i] != '\n',
        forall|i: int| 0 <= i < 8 ==> (" } from "@)[i] != '"' && (" } from "@)[i] != '\n',
        ("export { default as "@)[0] == 'e',
        !crate::text::spec_is_space(("export { default as "@)[0]),
        ("\";"@)[0] == '"',
        ("\";"@)[1] == ';',
        ("export type { "@).len() == 14,
        ("export type {"@).len() == 13,
        ("} from "@).len() == 7,
        ("export type { "@).subrange(0, 13) == ("export type {"@),
        ("export type { "@)[13] == ' ',
        ("export type { "@)[0] == 'e',
        forall|i: int|
            0 <= i < 14 ==> ("export type { "@)[i] != '"' && ("export type { "@)[i] != '\n'
                && ("export type { "@)[i] != ',',
        forall|i: int| 0 <= i < 7 ==> ("} from "@)[i] != '"' && ("} from "@)[i] != '\n',
        (" } from \""@).subrange(1, 8) == ("} from "@),
        ("export { default as "@)[7] == '{',
        ("export type { "@)[7] == 't',
{
    reveal_strlit("export { default as ");
    reveal_strlit(" } from \"");
    reveal_strlit("\";");
    reveal_strlit(" } from ");
    reveal_strlit("export type { ");
    reveal_strlit("export type {");
    reveal_strlit("} from ");
    assert((" } from \""@) =~= (" } from "@) + seq!['"']);
    assert(("export type { "@).subrange(0, 13) =~= ("export type {"@));
    assert((" } from \""@).subrange(1, 8) =~= ("} from "@));
}

/// The parser reads a canonical component line back to its name and path.
pub proof fn lemma_parse_canon_component_line(n: Seq<char>, p: Seq<char>)
    requires
        clean_export_name(n),
        clean_import_path(p),
    ensures
        spec_parse_component_line(canon_component_line(n, p)) == Some((n, p)),
{
    lemma_barrel_literals();
    reveal_strlit("export { default as ");
    reveal_strlit(" } from \"");
    reveal_strlit("\";");
    reveal_strlit(" } from ");
    reveal_strlit("export type { ");
    reveal_strlit("export type {");
    reveal_strlit("} from ");
    let pre = "export { default as "@;
    let mid = " } from \""@;
    let m = " } from "@;
    let tail = "\";"@;
    let line = canon_component_line(n, p);
    assert(line =~= pre + n + mid + p + tail);
    let q0 = 20 + n.len() as int + 8;
    assert(line[0] == 'e');
    assert(line[line.len() - 1] == ';');
    crate::text::lemma_trim_nonspace_ends(line);
    let t = spec_trim(line);
    assert(t == line);
    assert(t.subrange(0, 20) =~= pre);
    // the first double quote sits right after the separator
    assert(t[q0] == '"') by {
        assert(t[q0] == mid[8]);
    }
    assert(forall|j: int| 20 <= j < 20 + n.len() ==> t[j] == n[j - 20]);
    assert(forall|j: int| 20 + n.len() <= j < q0 ==> t[j] == m[j - 20 - n.len()]);
    lemma_find_char_spec(t, '"', 20);
    match spec_find_char(t, '"', 20) {
        None => {
            assert(t[q0] == '"');
            assert(false);
        },
        Some(q) => {
            if q < q0 {
                assert(t[q] == '"');
                assert(false);
            }
            if q > q0 {
                assert(t[q0] != '"');
                assert(false);
            }
            assert(q == q0);
        },
    }
    assert(spec_find_char(t, '"', 20) == Some(q0));
    assert(t.len() == q0 + 3 + p.len());
    assert(t.subrange(q0 - 8, q0) =~= m);
    assert(t[t.len() - 2] == '"') by {
        assert(t[t.len() - 2] == tail[0]);
    }
    assert(t[t.len() - 1] == ';');
    assert(t.subrange(20, q0 - 8) =~= n);
    assert(t.subrange(q0 + 1, t.len() - 2) =~= p);
    assert(spec_parse_component_line(line) == Some((spec_trim(n), p)));
}

/// The parser reads a canonical type line back to its single name and
/// path.
pub proof fn lemma_parse_canon_type_line(n: Seq<char>, p: Seq<char>)
    requires
        clean_type_name(n),
        clean_import_path(p),
    ensures
        spec_parse_type_line(canon_type_line(n, p)) == Some((seq![n], p)),
        spec_parse_component_line(canon_type_line(n, p)) is None,
{
    lemma_barrel_literals();
    reveal_strlit("export { default as ");
    reveal_strlit(" } from \"");
    reveal_strlit("\";");
    reveal_strlit(" } from ");
    reveal_strlit("export type { ");
    reveal_strlit("export type {");
    reveal_strlit("} from ");
    let pre = "export type { "@;
    let pre13 = "export type {"@;
    let mid = " } from \""@;
    let m2 = "} from "@;
    let tail = "\";"@;
    let line = canon_type_line(n, p);
    assert(line =~= pre + n + mid + p + tail);
    let q0 = 14 + n.len() as int + 8;
    assert(line[0] == 'e');
    assert(line[line.len() - 1] == ';');
    crate::text::lemma_trim_nonspace_ends(line);
    let t = spec_trim(line);
    assert(t == line);
    assert(t.subrange(0, 13) =~= pre13);
    assert(t[q0] == '"') by {
        assert(t[q0] == mid[8]);
    }
    assert(forall|j: int| 14 <= j < 14 + n.len() ==> t[j] == n[j - 14]);
    assert(forall|j: int| 14 + n.len() <= j < q0 ==> t[j] == mid[j - 14 - n.len()]);
    lemma_find_char_spec(t, '"', 13);
    match spec_find_char(t, '"', 13) {
        None => {
            assert(t[q0] == '"');
            assert(false);
        },
        Some(q) => {
            if 13 <= q < 14 {
                assert(t[13] == pre[13]);
                assert(t[q] == '"');
                assert(false);
            }
            if 14 <= q < q0 {
                assert(t[q] == '"');
                assert(false);
            }
            if q > q0 {
                assert(t[q0] != '"');
                assert(false);
            }
            assert(q == q0);
        },
    }
    assert(spec_find_char(t, '"', 13) == Some(q0));
    assert(t.len() == q0 + 3 + p.len());
    assert(t.subrange(q0 - 7, q0) =~= m2) by {
        assert(forall|j: int| 0 <= j < 7 ==> #[trigger] t[q0 - 7 + j] == mid[j + 1]);
        assert(forall|j: int| 0 <= j < 7 ==> #[trigger] mid.subrange(1, 8)[j] == mid[j + 1]);
    }
    assert(t[t.len() - 2] == '"') by {
        assert(t[t.len() - 2] == tail[0]);
    }
    assert(t[t.len() - 1] == ';');
    // the names region is the single name padded by one space each side
    let names_raw = t.subrange(13, q0 - 7);
    assert(names_raw =~= seq![' '] + n + seq![' ']) by {
        assert(t[13] == pre[13]);
        assert(t[14 + n.len() as int] == mid[0]);
    }
    crate::paths::lemma_split_single(names_raw, ',');
    let pieces = crate::paths::split_on(names_raw, ',').map_values(trim_fn());
    assert(pieces =~= seq![spec_trim(names_raw)]);
    crate::text::lemma_trim_padded(n);
    assert(pieces =~= seq![n]);
    assert(pieces.filter(nonempty_pred()) =~= seq![n]) by {
        reveal(Seq::filter);
        assert(pieces.drop_last() =~= Seq::<Seq<char>>::empty());
        assert(nonempty_pred()(n));
    }
    assert(spec_parse_type_line(line) == Some((seq![n], p)));
    // and it is no component line: the prefixes disagree at one position
    assert(spec_parse_component_line(line) is None) by {
        let cp = "export { default as "@;
        if t.len() >= 20 {
            assert(t[7] == pre[7]);
            assert(t[7] == 't');
            assert(cp[7] == '{');
            if t.subrange(0, 20) == cp {
                assert(t.subrange(0, 20)[7] == cp[7]);
                assert(false);
            }
        }
    }
}

/// What a successful component-line parse hands back is clean: the name
/// is trim-stable and free of quotes and newlines, the path free of
/// newlines, provided the line itself has no newline.
pub proof fn lemma_parse_component_line_clean(line: Seq<char>)
    requires
        forall|k: int| 0 <= k < line.len() ==> line[k] != '\n',
        spec_parse_component_line(line) is Some,
    ensures
        clean_export_name(spec_parse_component_line(line).unwrap().0),
        clean_import_path(spec_parse_component_line(line).unwrap().1),
{
    let t = spec_trim(line);
    crate::text::lemma_trim_chars_subset(line);
    let p = "export { default as "@;
    let q = spec_find_char(t, '"', p.len() as int).unwrap();
    lemma_find_char_spec(t, '"', p.len() as int);
    let m = " } from "@;
    let name0 = t.subrange(p.len() as int, q - m.len());
    let name = spec_trim(name0);
    let path = t.subrange(q + 1, t.len() - 2);
    crate::text::lemma_trim_idempotent(name0);
    crate::text::lemma_trim_chars_subset(name0);
    assert forall|i: int| 0 <= i < name.len() implies name[i] != '"' && name[i] != '\n' by {
        let j = choose|j: int| 0 <= j < name0.len() && name0[j] == name[i];
        assert(name0[j] == t[p.len() + j]);
        assert(t[p.len() + j] != '"');
        let k = choose|k: int| 0 <= k < line.len() && line[k] == t[p.len() + j];
    }
    assert forall|i: int| 0 <= i < path.len() implies path[i] != '\n' by {
        assert(path[i] == t[q + 1 + i]);
        let k = choose|k: int| 0 <= k < line.len() && line[k] == t[q + 1 + i];
    }
}

/// What a successful type-line parse hands back is clean: each name is
/// non-empty, trim-stable and free of quotes, commas and newlines, the
/// path free of newlines.
pub proof fn lemma_parse_type_line_clean(line: Seq<char>)
    requires
        forall|k: int| 0 <= k < line.len() ==> line[k] != '\n',
        spec_parse_type_line(line) is Some,
    ensures
        forall|i: int|
            0 <= i < spec_parse_type_line(line).unwrap().0.len() ==> clean_type_name(
                #[trigger] spec_parse_type_line(line).unwrap().0[i],
            ),
        clean_import_path(spec_parse_type_line(line).unwrap().1),
{
    broadcast use vstd::seq_lib::group_filter_ensures;

    let t = spec_trim(line);
    crate::text::lemma_trim_chars_subset(line);
    let p = "export type {"@;
    let q = spec_find_char(t, '"', p.len() as int).unwrap();
    lemma_find_char_spec(t, '"', p.len() as int);
    let m = "} from "@;
    let names_raw = t.subrange(p.len() as int, q - m.len());
    let pieces = crate::paths::split_on(names_raw, ',').map_values(trim_fn());
    let names = pieces.filter(nonempty_pred());
    let path = t.subrange(q + 1, t.len() - 2);
    crate::paths::lemma_split_on_no_sep(names_raw, ',');
    crate::paths::lemma_split_on_chars_subset(names_raw, ',');
    assert forall|i: int| 0 <= i < names.len() implies clean_type_name(#[trigger] names[i]) by {
        assert(nonempty_pred()(names[i]));
        crate::paths::lemma_filter_subset_pub(pieces, nonempty_pred(), i);
        let pi = choose|pi: int| 0 <= pi < pieces.len() && pieces[pi] == names[i];
        let raw_piece = crate::paths::split_on(names_raw, ',')[pi];
        assert(names[i] == spec_trim(raw_piece));
        crate::text::lemma_trim_idempotent(raw_piece);
        crate::text::lemma_trim_chars_subset(raw_piece);
        assert forall|c: int|
            0 <= c < names[i].len() implies names[i][c] != '"' && names[i][c] != '\n'
            && names[i][c] != ',' by {
            let j = choose|j: int| 0 <= j < raw_piece.len() && raw_piece[j] == names[i][c];
            let w = choose|w: int|
                0 <= w < names_raw.len() && names_raw[w] == raw_piece[j];
            assert(names_raw[w] == t[p.len() + w]);
            assert(t[p.len() + w] != '"');
            let k = choose|k: int| 0 <= k < line.len() && line[k] == t[p.len() + w];
        }
    }
    assert forall|i: int| 0 <= i < path.len() implies path[i] != '\n' by {
        assert(path[i] == t[q + 1 + i]);
        let k = choose|k: int| 0 <= k < line.len() && line[k] == t[q + 1 + i];
    }
}

/// The lines of a rendered entry list followed by further text: each
/// entry's line, then the lines of the rest.
pub proof fn lemma_split_rendered(s: Seq<(Seq<char>, Seq<char>)>, tail: Seq<char>)
    requires
        forall|i: int, k: int|
            0 <= i < s.len() && 0 <= k < s[i].1.len() ==> #[trigger] s[i].1[k] != '\n',
    ensures
        crate::paths::split_on(spec_render_entries(s) + tail, '\n') == s.map_values(
            |e: (Seq<char>, Seq<char>)| e.1,
        ) + crate::paths::split_on(tail, '\n'),
    decreases s.len(),
{
    if s.len() == 0 {
        assert(spec_render_entries(s) + tail =~= tail);
        assert(s.map_values(|e: (Seq<char>, Seq<char>)| e.1) + crate::paths::split_on(
            tail,
            '\n',
        ) =~= crate::paths::split_on(tail, '\n'));
    } else {
        let s0 = s.drop_last();
        let last_line = s.last().1;
        assert(spec_render_entries(s) + tail =~= spec_render_entries(s0) + (last_line
            + seq!['\n'] + tail));
        assert(forall|i: int, k: int|
            0 <= i < s0.len() && 0 <= k < s0[i].1.len() ==> #[trigger] s0[i].1[k] != '\n');
        lemma_split_rendered(s0, last_line + seq!['\n'] + tail);
        crate::paths::lemma_split_on_concat(last_line, tail, '\n');
        assert(forall|k: int| 0 <= k < last_line.len() ==> last_line[k] != '\n');
        crate::paths::lemma_split_single(last_line, '\n');
        assert(crate::paths::split_on(last_line + seq!['\n'] + tail, '\n') == seq![last_line]
            + crate::paths::split_on(tail, '\n'));
        assert(s0.map_values(|e: (Seq<char>, Seq<char>)| e.1) + (seq![last_line]
            + crate::paths::split_on(tail, '\n')) =~= s.map_values(
            |e: (Seq<char>, Seq<char>)| e.1,
        ) + crate::paths::split_on(tail, '\n'));
    }
}

/// A well-formed component map entry: a clean name carrying its own
/// canonical line.
pub open spec fn component_entry_ok(e: (Seq<char>, Seq<char>)) -> bool {
    clean_export_name(e.0) && exists|p: Seq<char>|
        e.1 == #[trigger] canon_component_line(e.0, p) && clean_import_path(p)
}

/// A well-formed type map entry.
pub open spec fn type_entry_ok(e: (Seq<char>, Seq<char>)) -> bool {
    clean_type_name(e.0) && exists|p: Seq<char>|
        e.1 == #[trigger] canon_type_line(e.0, p) && clean_import_path(p)
}

/// Both export maps hold only well-formed entries.
pub open spec fn barrel_maps_ok(
    c: Seq<(Seq<char>, Seq<char>)>,
    t: Seq<(Seq<char>, Seq<char>)>,
) -> bool {
    &&& forall|i: int| 0 <= i < c.len() ==> component_entry_ok(#[trigger] c[i])
    &&& forall|i: int| 0 <= i < t.len() ==> type_entry_ok(#[trigger] t[i])
    &&& crate::strmap::spec_sorted_keys(c)
    &&& crate::strmap::spec_sorted_keys(t)
}

/// A canonical line holds no newline and ends in a semicolon.
proof fn lemma_canon_component_line_clean(n: Seq<char>, p: Seq<char>)
    requires
        clean_export_name(n),
        clean_import_path(p),
    ensures
        forall|k: int| 0 <= k < canon_component_line(n, p).len() ==> #[trigger] canon_component_line(
            n,
            p,
        )[k] != '\n',
        canon_component_line(n, p).len() > 0,
        canon_component_line(n, p).last() == ';',
{
    lemma_barrel_literals();
    reveal_strlit("export { default as ");
    reveal_strlit(" } from \"");
    reveal_strlit("\";");
    reveal_strlit(" } from ");
    let line = canon_component_line(n, p);
    assert(line =~= ("export { default as "@) + n + (" } from \""@) + p + ("\";"@));
    assert forall|k: int| 0 <= k < line.len() implies #[trigger] line[k] != '\n' by {
        let a = ("export { default as "@).len() as int;
        let b = a + n.len();
        let c = b + (" } from \""@).len() as int;
        let d = c + p.len();
        if k < a {
        } else if k < b {
            assert(line[k] == n[k - a]);
        } else if k < c {
            assert(line[k] == (" } from \""@)[k - b]);
            assert((" } from \""@) == (" } from "@) + seq!['"']);
        } else if k < d {
            assert(line[k] == p[k - c]);
        } else {
            assert(line[k] == ("\";"@)[k - d]);
        }
    }
    assert(line.last() == ("\";"@)[1]);
}

/// A canonical type line holds no newline and ends in a semicolon.
proof fn lemma_canon_type_line_clean(n: Seq<char>, p: Seq<char>)
    requires
        clean_type_name(n),
        clean_import_path(p),
    ensures
        forall|k: int| 0 <= k < canon_type_line(n, p).len() ==> #[trigger] canon_type_line(
            n,
            p,
        )[k] != '\n',
        canon_type_line(n, p).len() > 0,
        canon_type_line(n, p).last() == ';',
{
    lemma_barrel_literals();
    reveal_strlit("export type { ");
    reveal_strlit(" } from \"");
    reveal_strlit("\";");
    reveal_strlit(" } from ");
    let line = canon_type_line(n, p);
    assert(line =~= ("export type { "@) + n + (" } from \""@) + p + ("\";"@));
    assert forall|k: int| 0 <= k < line.len() implies #[trigger] line[k] != '\n' by {
        let a = ("export type { "@).len() as int;
        let b = a + n.len();
        let c = b + (" } from \""@).len() as int;
        let d = c + p.len();
        if k < a {
        } else if k < b {
            assert(line[k] == n[k - a]);
        } else if k < c {
            assert(line[k] == (" } from \""@)[k - b]);
            assert((" } from \""@) == (" } from "@) + seq!['"']);
        } else if k < d {
            assert(line[k] == p[k - c]);
        } else {
            assert(line[k] == ("\";"@)[k - d]);
        }
    }
    assert(line.last() == ("\";"@)[1]);
}

/// Parsing the rendered text of well-formed maps gives the maps back.
pub proof fn lemma_parse_of_rendered(
    c: Seq<(Seq<char>, Seq<char>)>,
    t: Seq<(Seq<char>, Seq<char>)>,
)
    requires
        barrel_maps_ok(c, t),
    ensures
        spec_parse_barrel(spec_lines(spec_render_entries(c) + spec_render_entries(t))) == (c, t),
{
    let text = spec_render_entries(c) + spec_render_entries(t);
    let line_of = |e: (Seq<char>, Seq<char>)| e.1;
    assert forall|i: int, k: int|
        0 <= i < c.len() && 0 <= k < c[i].1.len() implies #[trigger] c[i].1[k] != '\n' by {
        let p = choose|p: Seq<char>|
            c[i].1 == canon_component_line(c[i].0, p) && clean_import_path(p);
        lemma_canon_component_line_clean(c[i].0, p);
    }
    assert forall|i: int, k: int|
        0 <= i < t.len() && 0 <= k < t[i].1.len() implies #[trigger] t[i].1[k] != '\n' by {
        let p = choose|p: Seq<char>| t[i].1 == canon_type_line(t[i].0, p) && clean_import_path(p);
        lemma_canon_type_line_clean(t[i].0, p);
    }
    if c.len() == 0 && t.len() == 0 {
        assert(text =~= Seq::<char>::empty());
        assert(spec_lines(text) =~= Seq::<Seq<char>>::empty());
        assert(spec_parse_barrel(spec_lines(text)).0 =~= c);
        assert(spec_parse_barrel(spec_lines(text)).1 =~= t);
    } else {
        // the raw split: each entry's line, then one trailing empty piece
        lemma_split_rendered(t, Seq::<char>::empty());
        assert(spec_render_entries(t) + Seq::<char>::empty() =~= spec_render_entries(t));
        lemma_split_rendered(c, spec_render_entries(t));
        assert(crate::paths::split_on(Seq::<char>::empty(), '\n') =~= seq![
            Seq::<char>::empty(),
        ]);
        let raw = crate::paths::split_on(text, '\n');
        assert(raw == c.map_values(line_of) + (t.map_values(line_of) + seq![
            Seq::<char>::empty(),
        ]));
        assert(raw =~= (c.map_values(line_of) + t.map_values(line_of)).push(
            Seq::<char>::empty(),
        ));
        assert(text.len() > 0) by {
            if c.len() > 0 {
                let p = choose|p: Seq<char>|
                    c[0].1 == canon_component_line(c[0].0, p) && clean_import_path(p);
                lemma_canon_component_line_clean(c[0].0, p);
                lemma_render_entries_len(c);
            } else {
                let p = choose|p: Seq<char>|
                    t[0].1 == canon_type_line(t[0].0, p) && clean_import_path(p);
                lemma_canon_type_line_clean(t[0].0, p);
                lemma_render_entries_len(t);
            }
        }
        let kept = c.map_values(line_of) + t.map_values(line_of);
        assert(raw.last().len() == 0);
        assert(raw.drop_last() =~= kept);
        // no line ends in a carriage return, so stripping changes nothing
        assert forall|i: int| 0 <= i < kept.len() implies spec_strip_cr(#[trigger] kept[i])
            == kept[i] by {
            if i < c.len() {
                assert(kept[i] == c[i].1);
                let p = choose|p: Seq<char>|
                    c[i].1 == canon_component_line(c[i].0, p) && clean_import_path(p);
                lemma_canon_component_line_clean(c[i].0, p);
                assert(kept[i].last() == ';');
            } else {
                assert(kept[i] == t[i - c.len()].1);
                let p = choose|p: Seq<char>|
                    t[i - c.len()].1 == canon_type_line(t[i - c.len()].0, p)
                        && clean_import_path(p);
                lemma_canon_type_line_clean(t[i - c.len()].0, p);
                assert(kept[i].last() == ';');
            }
        }
        assert(spec_lines(text) =~= kept);
        // fold the lines back into the maps
        lemma_parse_lines_types(c, t, t.len() as int);
        assert(t.map_values(line_of).subrange(0, t.len() as int) =~= t.map_values(line_of));
        assert(c.map_values(line_of) + t.map_values(line_of).subrange(0, t.len() as int)
            =~= kept);
        assert(t.subrange(0, t.len() as int) =~= t);
        crate::strmap::lemma_fold_insert_rebuild(Seq::<(Seq<char>, Seq<char>)>::empty(), c);
        lemma_sorted_pad_helper(c);
        lemma_sorted_pad_helper(t);
        crate::strmap::lemma_fold_insert_rebuild(Seq::<(Seq<char>, Seq<char>)>::empty(), t);
        assert(spec_parse_barrel(kept).0 == Seq::<(Seq<char>, Seq<char>)>::empty() + c);
        assert(Seq::<(Seq<char>, Seq<char>)>::empty() + c =~= c);
        assert(spec_parse_barrel(kept).1 == Seq::<(Seq<char>, Seq<char>)>::empty() + t);
        assert(Seq::<(Seq<char>, Seq<char>)>::empty() + t =~= t);
        assert(spec_parse_barrel(spec_lines(text)).0 == c);
        assert(spec_parse_barrel(spec_lines(text)).1 == t);
    }
}

/// Sortedness carries over a vacuous empty prefix.
proof fn lemma_sorted_pad_helper(s: Seq<(Seq<char>, Seq<char>)>)
    requires
        crate::strmap::spec_sorted_keys(s),
    ensures
        spec_sorted_keys_pad(s),
{
    assert(Seq::<(Seq<char>, Seq<char>)>::empty() + s =~= s);
}

/// The padded form the fold-rebuild lemma wants.
pub open spec fn spec_sorted_keys_pad(s: Seq<(Seq<char>, Seq<char>)>) -> bool {
    crate::strmap::spec_sorted_keys(Seq::<(Seq<char>, Seq<char>)>::empty() + s)
}

/// Rendering at least one entry yields non-empty text.
proof fn lemma_render_entries_len(s: Seq<(Seq<char>, Seq<char>)>)
    requires
        s.len() > 0,
    ensures
        spec_render_entries(s).len() > 0,
{
}

/// Parsing the component lines alone rebuilds the component fold.
proof fn lemma_parse_lines_components(c: Seq<(Seq<char>, Seq<char>)>)
    requires
        forall|i: int| 0 <= i < c.len() ==> component_entry_ok(#[trigger] c[i]),
    ensures
        spec_parse_barrel(c.map_values(|e: (Seq<char>, Seq<char>)| e.1))
            == (
            crate::strmap::fold_assoc_inserts(Seq::<(Seq<char>, Seq<char>)>::empty(), c),
            Seq::<(Seq<char>, Seq<char>)>::empty(),
        ),
    decreases c.len(),
{
    let line_of = |e: (Seq<char>, Seq<char>)| e.1;
    if c.len() > 0 {
        lemma_parse_lines_components(c.drop_last());
        assert(c.map_values(line_of).drop_last() =~= c.drop_last().map_values(line_of));
        assert(c.map_values(line_of).last() == c.last().1);
        let p = choose|p: Seq<char>|
            c.last().1 == canon_component_line(c.last().0, p) && clean_import_path(p);
        lemma_parse_canon_component_line(c.last().0, p);
        lemma_fold_inserts_snoc(c.drop_last(), c.last());
        assert(c.drop_last().push(c.last()) =~= c);
    } else {
        assert(c.map_values(line_of) =~= Seq::<Seq<char>>::empty());
    }
}

/// Folding entries one at a time from either end agrees.
proof fn lemma_fold_inserts_snoc(s: Seq<(Seq<char>, Seq<char>)>, e: (Seq<char>, Seq<char>))
    ensures
        crate::strmap::fold_assoc_inserts(Seq::<(Seq<char>, Seq<char>)>::empty(), s.push(e))
            == crate::strmap::spec_assoc_insert(
            crate::strmap::fold_assoc_inserts(Seq::<(Seq<char>, Seq<char>)>::empty(), s),
            e.0,
            e.1,
        ),
{
    lemma_fold_inserts_snoc_general(Seq::<(Seq<char>, Seq<char>)>::empty(), s, e);
}

proof fn lemma_fold_inserts_snoc_general(
    acc: Seq<(Seq<char>, Seq<char>)>,
    s: Seq<(Seq<char>, Seq<char>)>,
    e: (Seq<char>, Seq<char>),
)
    ensures
        crate::strmap::fold_assoc_inserts(acc, s.push(e)) == crate::strmap::spec_assoc_insert(
            crate::strmap::fold_assoc_inserts(acc, s),
            e.0,
            e.1,
        ),
    decreases s.len(),
{
    if s.len() == 0 {
        assert(s.push(e)[0] == e);
        assert(s.push(e).drop_first() =~= Seq::<(Seq<char>, Seq<char>)>::empty());
        assert(crate::strmap::fold_assoc_inserts(acc, s.push(e))
            == crate::strmap::fold_assoc_inserts(
            crate::strmap::spec_assoc_insert(acc, e.0, e.1),
            Seq::<(Seq<char>, Seq<char>)>::empty(),
        ));
        assert(crate::strmap::fold_assoc_inserts(acc, s) == acc);
    } else {
        assert(s.push(e)[0] == s[0]);
        assert(s.push(e).drop_first() =~= s.drop_first().push(e));
        assert(crate::strmap::fold_assoc_inserts(acc, s.push(e))
            == crate::strmap::fold_assoc_inserts(
            crate::strmap::spec_assoc_insert(acc, s[0].0, s[0].1),
            s.drop_first().push(e),
        ));
        assert(crate::strmap::fold_assoc_inserts(acc, s)
            == crate::strmap::fold_assoc_inserts(
            crate::strmap::spec_assoc_insert(acc, s[0].0, s[0].1),
            s.drop_first(),
        ));
        lemma_fold_inserts_snoc_general(
            crate::strmap::spec_assoc_insert(acc, s[0].0, s[0].1),
            s.drop_first(),
            e,
        );
    }
}

/// Parsing the component lines followed by a prefix of the type lines
/// rebuilds both folds.
proof fn lemma_parse_lines_types(
    c: Seq<(Seq<char>, Seq<char>)>,
    t: Seq<(Seq<char>, Seq<char>)>,
    upto: int,
)
    requires
        forall|i: int| 0 <= i < c.len() ==> component_entry_ok(#[trigger] c[i]),
        forall|i: int| 0 <= i < t.len() ==> type_entry_ok(#[trigger] t[i]),
        0 <= upto <= t.len(),
    ensures
        spec_parse_barrel(
            c.map_values(|e: (Seq<char>, Seq<char>)| e.1) + t.map_values(
                |e: (Seq<char>, Seq<char>)| e.1,
            ).subrange(0, upto),
        ) == (
            crate::strmap::fold_assoc_inserts(Seq::<(Seq<char>, Seq<char>)>::empty(), c),
            crate::strmap::fold_assoc_inserts(
                Seq::<(Seq<char>, Seq<char>)>::empty(),
                t.subrange(0, upto),
            ),
        ),
    decreases upto,
{
    let line_of = |e: (Seq<char>, Seq<char>)| e.1;
    if upto == 0 {
        assert(c.map_values(line_of) + t.map_values(line_of).subrange(0, 0) =~= c.map_values(
            line_of,
        ));
        lemma_parse_lines_components(c);
        assert(t.subrange(0, 0) =~= Seq::<(Seq<char>, Seq<char>)>::empty());
    } else {
        lemma_parse_lines_types(c, t, upto - 1);
        let lines = c.map_values(line_of) + t.map_values(line_of).subrange(0, upto);
        assert(lines.drop_last() =~= c.map_values(line_of) + t.map_values(line_of).subrange(
            0,
            upto - 1,
        ));
        assert(lines.last() == t[upto - 1].1);
        let p = choose|p: Seq<char>|
            t[upto - 1].1 == canon_type_line(t[upto - 1].0, p) && clean_import_path(p);
        lemma_parse_canon_type_line(t[upto - 1].0, p);
        assert(spec_insert_type_names(
            crate::strmap::fold_assoc_inserts(
                Seq::<(Seq<char>, Seq<char>)>::empty(),
                t.subrange(0, upto - 1),
            ),
            seq![t[upto - 1].0],
            p,
        ) == crate::strmap::spec_assoc_insert(
            crate::strmap::fold_assoc_inserts(
                Seq::<(Seq<char>, Seq<char>)>::empty(),
                t.subrange(0, upto - 1),
            ),
            t[upto - 1].0,
            canon_type_line(t[upto - 1].0, p),
        )) by {
            let base = crate::strmap::fold_assoc_inserts(
                Seq::<(Seq<char>, Seq<char>)>::empty(),
                t.subrange(0, upto - 1),
            );
            let names1 = seq![t[upto - 1].0];
            assert(names1[0] == t[upto - 1].0);
            assert(names1.drop_first() =~= Seq::<Seq<char>>::empty());
            assert(spec_insert_type_names(base, names1, p) == spec_insert_type_names(
                crate::strmap::spec_assoc_insert(
                    base,
                    t[upto - 1].0,
                    canon_type_line(t[upto - 1].0, p),
                ),
                names1.drop_first(),
                p,
            ));
            assert(spec_insert_type_names(
                crate::strmap::spec_assoc_insert(
                    base,
                    t[upto - 1].0,
                    canon_type_line(t[upto - 1].0, p),
                ),
                Seq::<Seq<char>>::empty(),
                p,
            ) == crate::strmap::spec_assoc_insert(
                base,
                t[upto - 1].0,
                canon_type_line(t[upto - 1].0, p),
            ));
        }
        lemma_fold_inserts_snoc(t.subrange(0, upto - 1), t[upto - 1]);
        assert(t.subrange(0, upto - 1).push(t[upto - 1]) =~= t.subrange(0, upto));
    }
}

/// The lines of any text hold no newline.
proof fn lemma_lines_nl_free(s: Seq<char>)
    ensures
        forall|i: int, k: int|
            0 <= i < spec_lines(s).len() && 0 <= k < spec_lines(s)[i].len()
                ==> #[trigger] spec_lines(s)[i][k] != '\n',
{
    if s.len() > 0 {
        crate::paths::lemma_split_on_no_sep(s, '\n');
        crate::paths::lemma_split_on_nonempty(s, '\n');
        let raw = crate::paths::split_on(s, '\n');
        let kept = if raw.last().len() == 0 {
            raw.drop_last()
        } else {
            raw
        };
        assert forall|i: int, k: int|
            0 <= i < spec_lines(s).len() && 0 <= k < spec_lines(s)[i].len()
                implies #[trigger] spec_lines(s)[i][k] != '\n' by {
            assert(spec_lines(s)[i] == spec_strip_cr(kept[i]));
            assert(kept[i] == raw[i]);
            assert(spec_lines(s)[i][k] == kept[i][k]);
        }
    }
}

/// Inserting canonical type lines for clean names keeps the type map
/// well formed.
proof fn lemma_insert_type_names_ok(
    tm: Seq<(Seq<char>, Seq<char>)>,
    names: Seq<Seq<char>>,
    path: Seq<char>,
)
    requires
        forall|i: int| 0 <= i < names.len() ==> clean_type_name(#[trigger] names[i]),
        clean_import_path(path),
        crate::strmap::spec_sorted_keys(tm),
        forall|i: int| 0 <= i < tm.len() ==> type_entry_ok(#[trigger] tm[i]),
    ensures
        crate::strmap::spec_sorted_keys(spec_insert_type_names(tm, names, path)),
        forall|i: int|
            0 <= i < spec_insert_type_names(tm, names, path).len() ==> type_entry_ok(
                #[trigger] spec_insert_type_names(tm, names, path)[i],
            ),
    decreases names.len(),
{
    if names.len() > 0 {
        let n0 = names[0];
        let inserted = crate::strmap::spec_assoc_insert(tm, n0, canon_type_line(n0, path));
        crate::strmap::lemma_assoc_insert_keeps_sorted(tm, n0, canon_type_line(n0, path));
        crate::strmap::lemma_assoc_insert_entries(tm, n0, canon_type_line(n0, path));
        assert forall|i: int| 0 <= i < inserted.len() implies type_entry_ok(
            #[trigger] inserted[i],
        ) by {
            if inserted[i] == (n0, canon_type_line(n0, path)) {
                assert(canon_type_line(n0, path) == canon_type_line(inserted[i].0, path));
            } else {
                let j = choose|j: int| 0 <= j < tm.len() && tm[j] == inserted[i];
            }
        }
        lemma_insert_type_names_ok(inserted, names.drop_first(), path);
    }
}

/// Parsing any newline-free lines yields well-formed, sorted maps.
pub proof fn lemma_parse_barrel_ok(lines: Seq<Seq<char>>)
    requires
        forall|i: int, k: int|
            0 <= i < lines.len() && 0 <= k < lines[i].len() ==> #[trigger] lines[i][k] != '\n',
    ensures
        barrel_maps_ok(spec_parse_barrel(lines).0, spec_parse_barrel(lines).1),
    decreases lines.len(),
{
    if lines.len() > 0 {
        assert(forall|i: int, k: int|
            0 <= i < lines.drop_last().len() && 0 <= k < lines.drop_last()[i].len()
                ==> #[trigger] lines.drop_last()[i][k] != '\n');
        lemma_parse_barrel_ok(lines.drop_last());
        let prev = spec_parse_barrel(lines.drop_last());
        let line = lines.last();
        assert(forall|k: int| 0 <= k < line.len() ==> line[k] != '\n');
        match spec_parse_component_line(line) {
            Some(np) => {
                lemma_parse_component_line_clean(line);
                let inserted = crate::strmap::spec_assoc_insert(
                    prev.0,
                    np.0,
                    canon_component_line(np.0, np.1),
                );
                crate::strmap::lemma_assoc_insert_keeps_sorted(
                    prev.0,
                    np.0,
                    canon_component_line(np.0, np.1),
                );
                crate::strmap::lemma_assoc_insert_entries(
                    prev.0,
                    np.0,
                    canon_component_line(np.0, np.1),
                );
                assert forall|i: int| 0 <= i < inserted.len() implies component_entry_ok(
                    #[trigger] inserted[i],
                ) by {
                    if inserted[i] == (np.0, canon_component_line(np.0, np.1)) {
                        assert(canon_component_line(np.0, np.1) == canon_component_line(
                            inserted[i].0,
                            np.1,
                        ));
                    } else {
                        let j = choose|j: int| 0 <= j < prev.0.len() && prev.0[j] == inserted[i];
                    }
                }
            },
            None => {
                match spec_parse_type_line(line) {
                    Some(np) => {
                        lemma_parse_type_line_clean(line);
                        lemma_insert_type_names_ok(prev.1, np.0, np.1);
                    },
                    None => {
                    },
                }
            },
        }
    }
}

/// All the component export names are pairwise distinct.
pub open spec fn distinct_component_names(comps: Seq<ComponentExportSpec>) -> bool {
    forall|i: int, j: int|
        0 <= i < j < comps.len() ==> (#[trigger] comps[i]).export_name@ != (
        #[trigger] comps[j]).export_name@
}

/// All type export names, across all the specs, are pairwise distinct.
pub open spec fn distinct_type_names(types: Seq<TypeExportSpec>) -> bool {
    forall|i: int, k: int, j: int, l: int|
        #![trigger types[i].export_names@[k], types[j].export_names@[l]]
        0 <= i < types.len() && 0 <= k < types[i].export_names@.len() && 0 <= j < types.len() && 0
            <= l < types[j].export_names@.len() && (i != j || k != l)
            ==> types[i].export_names@[k]@ != types[j].export_names@[l]@
}

/// Merging distinct clean component exports keeps the map well formed
/// and leaves each name holding its own canonical line.
proof fn lemma_merge_components_props(
    c0: Seq<(Seq<char>, Seq<char>)>,
    modified: bool,
    comps: Seq<ComponentExportSpec>,
    root: Seq<char>,
    base: Seq<char>,
    bdir: Seq<char>,
)
    requires
        crate::strmap::spec_sorted_keys(c0),
        forall|i: int| 0 <= i < c0.len() ==> component_entry_ok(#[trigger] c0[i]),
        forall|i: int|
            0 <= i < comps.len() ==> clean_export_name((#[trigger] comps[i]).export_name@),
        distinct_component_names(comps),
        forall|i: int|
            0 <= i < comps.len() && spec_import_path(
                root,
                base,
                bdir,
                (#[trigger] comps[i]).entry_path@,
            ) is Some ==> clean_import_path(
                spec_import_path(root, base, bdir, comps[i].entry_path@).unwrap(),
            ),
    ensures
        ({
            let r = spec_merge_components(c0, modified, comps, root, base, bdir);
            &&& crate::strmap::spec_sorted_keys(r.0)
            &&& forall|i: int| 0 <= i < r.0.len() ==> component_entry_ok(#[trigger] r.0[i])
            &&& forall|i: int|
                0 <= i < comps.len() && spec_import_path(
                    root,
                    base,
                    bdir,
                    (#[trigger] comps[i]).entry_path@,
                ) is Some ==> spec_assoc_get(r.0, comps[i].export_name@) == Some(
                    canon_component_line(
                        comps[i].export_name@,
                        spec_import_path(root, base, bdir, comps[i].entry_path@).unwrap(),
                    ),
                )
        }),
    decreases comps.len(),
{
    if comps.len() > 0 {
        assert(forall|i: int|
            0 <= i < comps.drop_last().len() ==> (#[trigger] comps.drop_last()[i])
                == comps[i]);
        lemma_merge_components_props(c0, modified, comps.drop_last(), root, base, bdir);
        let prev = spec_merge_components(c0, modified, comps.drop_last(), root, base, bdir);
        let last = comps.last();
        let r = spec_merge_components(c0, modified, comps, root, base, bdir);
        match spec_import_path(root, base, bdir, last.entry_path@) {
            None => {
                assert(r == prev);
                assert forall|i: int|
                    0 <= i < comps.len() && spec_import_path(
                        root,
                        base,
                        bdir,
                        (#[trigger] comps[i]).entry_path@,
                    ) is Some implies spec_assoc_get(r.0, comps[i].export_name@) == Some(
                    canon_component_line(
                        comps[i].export_name@,
                        spec_import_path(root, base, bdir, comps[i].entry_path@).unwrap(),
                    ),
                ) by {
                    if i < comps.len() - 1 {
                        assert(comps.drop_last()[i] == comps[i]);
                    }
                }
            },
            Some(imp) => {
                let line = canon_component_line(last.export_name@, imp);
                let got = spec_assoc_get(prev.0, last.export_name@);
                if got == Some(line) {
                    assert(r.0 == prev.0);
                    assert forall|i: int|
                        0 <= i < comps.len() && spec_import_path(
                            root,
                            base,
                            bdir,
                            (#[trigger] comps[i]).entry_path@,
                        ) is Some implies spec_assoc_get(r.0, comps[i].export_name@) == Some(
                        canon_component_line(
                            comps[i].export_name@,
                            spec_import_path(root, base, bdir, comps[i].entry_path@).unwrap(),
                        ),
                    ) by {
                        if i < comps.len() - 1 {
                            assert(comps.drop_last()[i] == comps[i]);
                        }
                    }
                } else {
                    assert(r.0 == crate::strmap::spec_assoc_insert(
                        prev.0,
                        last.export_name@,
                        line,
                    ));
                    crate::strmap::lemma_assoc_insert_keeps_sorted(
                        prev.0,
                        last.export_name@,
                        line,
                    );
                    crate::strmap::lemma_assoc_insert_entries(prev.0, last.export_name@, line);
                    assert forall|i: int| 0 <= i < r.0.len() implies component_entry_ok(
                        #[trigger] r.0[i],
                    ) by {
                        if r.0[i] == (last.export_name@, line) {
                            assert(line == canon_component_line(r.0[i].0, imp));
                        } else {
                            let j = choose|j: int| 0 <= j < prev.0.len() && prev.0[j] == r.0[i];
                        }
                    }
                    assert forall|i: int|
                        0 <= i < comps.len() && spec_import_path(
                            root,
                            base,
                            bdir,
                            (#[trigger] comps[i]).entry_path@,
                        ) is Some implies spec_assoc_get(r.0, comps[i].export_name@) == Some(
                        canon_component_line(
                            comps[i].export_name@,
                            spec_import_path(root, base, bdir, comps[i].entry_path@).unwrap(),
                        ),
                    ) by {
                        crate::strmap::lemma_assoc_get_after_insert(
                            prev.0,
                            last.export_name@,
                            line,
                            comps[i].export_name@,
                        );
                        if i < comps.len() - 1 {
                            assert(comps.drop_last()[i] == comps[i]);
                            assert(comps[i].export_name@ != last.export_name@);
                        }
                    }
                }
            },
        }
    }
}

/// Merging exports whose canonical lines are already in place changes
/// neither the map nor the modified flag.
proof fn lemma_merge_components_noop(
    c: Seq<(Seq<char>, Seq<char>)>,
    comps: Seq<ComponentExportSpec>,
    root: Seq<char>,
    base: Seq<char>,
    bdir: Seq<char>,
)
    requires
        forall|i: int|
            0 <= i < comps.len() && spec_import_path(
                root,
                base,
                bdir,
                (#[trigger] comps[i]).entry_path@,
            ) is Some ==> spec_assoc_get(c, comps[i].export_name@) == Some(
                canon_component_line(
                    comps[i].export_name@,
                    spec_import_path(root, base, bdir, comps[i].entry_path@).unwrap(),
                ),
            ),
    ensures
        spec_merge_components(c, false, comps, root, base, bdir) == (c, false),
    decreases comps.len(),
{
    if comps.len() > 0 {
        assert(forall|i: int|
            0 <= i < comps.drop_last().len() ==> (#[trigger] comps.drop_last()[i]) == comps[i]);
        lemma_merge_components_noop(c, comps.drop_last(), root, base, bdir);
    }
}

/// Merging one spec's distinct clean type names keeps the map well
/// formed, leaves each name holding its canonical line, and touches no
/// other key.
proof fn lemma_merge_type_names_props(
    t0: Seq<(Seq<char>, Seq<char>)>,
    modified: bool,
    names: Seq<Seq<char>>,
    imp: Seq<char>,
)
    requires
        crate::strmap::spec_sorted_keys(t0),
        forall|i: int| 0 <= i < t0.len() ==> type_entry_ok(#[trigger] t0[i]),
        forall|i: int| 0 <= i < names.len() ==> clean_type_name(#[trigger] names[i]),
        forall|i: int, j: int| 0 <= i < j < names.len() ==> names[i] != names[j],
        clean_import_path(imp),
    ensures
        ({
            let r = spec_merge_type_names(t0, modified, names, imp);
            &&& crate::strmap::spec_sorted_keys(r.0)
            &&& forall|i: int| 0 <= i < r.0.len() ==> type_entry_ok(#[trigger] r.0[i])
            &&& forall|k: int|
                0 <= k < names.len() ==> spec_assoc_get(r.0, #[trigger] names[k]) == Some(
                    canon_type_line(names[k], imp),
                )
            &&& forall|q: Seq<char>|
                (forall|k: int| 0 <= k < names.len() ==> names[k] != q)
                    ==> #[trigger] spec_assoc_get(r.0, q) == spec_assoc_get(t0, q)
        }),
    decreases names.len(),
{
    if names.len() > 0 {
        let first = names[0];
        assert(first.len() > 0);
        let line = canon_type_line(first, imp);
        let next = spec_merge_one(t0, modified, first, line);
        assert forall|i: int| 0 <= i < next.0.len() implies type_entry_ok(#[trigger] next.0[i])
            by {
            crate::strmap::lemma_assoc_insert_entries(t0, first, line);
            if next.0 != t0 {
                if next.0[i] == (first, line) {
                    assert(line == canon_type_line(next.0[i].0, imp));
                } else {
                    let j = choose|j: int| 0 <= j < t0.len() && t0[j] == next.0[i];
                }
            }
        }
        crate::strmap::lemma_assoc_insert_keeps_sorted(t0, first, line);
        assert(forall|i: int|
            0 <= i < names.drop_first().len() ==> (#[trigger] names.drop_first()[i]) == names[i
                + 1]);
        lemma_merge_type_names_props(next.0, next.1, names.drop_first(), imp);
        let r = spec_merge_type_names(next.0, next.1, names.drop_first(), imp);
        assert(spec_merge_type_names(t0, modified, names, imp) == r);
        // the first name's entry survives the rest of the fold
        assert(spec_assoc_get(next.0, first) == Some(line)) by {
            match spec_assoc_get(t0, first) {
                Some(existing) => {
                    if existing == line {
                        assert(next.0 == t0);
                    } else {
                        crate::strmap::lemma_assoc_get_after_insert(t0, first, line, first);
                    }
                },
                None => {
                    crate::strmap::lemma_assoc_get_after_insert(t0, first, line, first);
                },
            }
        }
        assert forall|k: int|
            0 <= k < names.len() implies spec_assoc_get(r.0, #[trigger] names[k]) == Some(
            canon_type_line(names[k], imp),
        ) by {
            if k == 0 {
                assert(forall|j: int|
                    0 <= j < names.drop_first().len() ==> (#[trigger] names.drop_first()[j])
                        != first);
            } else {
                assert(names.drop_first()[k - 1] == names[k]);
            }
        }
        assert forall|q: Seq<char>|
            (forall|k: int| 0 <= k < names.len() ==> names[k] != q)
                implies #[trigger] spec_assoc_get(r.0, q) == spec_assoc_get(t0, q) by {
            assert(spec_assoc_get(next.0, q) == spec_assoc_get(t0, q)) by {
                if next.0 != t0 {
                    crate::strmap::lemma_assoc_get_after_insert(t0, first, line, q);
                }
            }
        }
    }
}

/// Merging distinct clean type specs keeps the map well formed and
/// leaves every name holding its canonical line.
proof fn lemma_merge_types_props(
    t0: Seq<(Seq<char>, Seq<char>)>,
    modified: bool,
    types: Seq<TypeExportSpec>,
    root: Seq<char>,
    base: Seq<char>,
    bdir: Seq<char>,
)
    requires
        crate::strmap::spec_sorted_keys(t0),
        forall|i: int| 0 <= i < t0.len() ==> type_entry_ok(#[trigger] t0[i]),
        forall|i: int, k: int|
            0 <= i < types.len() && 0 <= k < types[i].export_names@.len() ==> clean_type_name(
                (#[trigger] types[i].export_names@[k])@,
            ),
        distinct_type_names(types),
        forall|i: int|
            0 <= i < types.len() && spec_import_path(
                root,
                base,
                bdir,
                (#[trigger] types[i]).entry_path@,
            ) is Some ==> clean_import_path(
                spec_import_path(root, base, bdir, types[i].entry_path@).unwrap(),
            ),
    ensures
        ({
            let r = spec_merge_types(t0, modified, types, root, base, bdir);
            &&& crate::strmap::spec_sorted_keys(r.0)
            &&& forall|i: int| 0 <= i < r.0.len() ==> type_entry_ok(#[trigger] r.0[i])
            &&& forall|i: int, k: int|
                0 <= i < types.len() && 0 <= k < types[i].export_names@.len()
                    && spec_import_path(root, base, bdir, types[i].entry_path@) is Some
                    ==> spec_assoc_get(r.0, (#[trigger] types[i].export_names@[k])@) == Some(
                    canon_type_line(
                        types[i].export_names@[k]@,
                        spec_import_path(root, base, bdir, types[i].entry_path@).unwrap(),
                    ),
                )
        }),
    decreases types.len(),
{
    if types.len() > 0 {
        assert(forall|i: int|
            0 <= i < types.drop_last().len() ==> (#[trigger] types.drop_last()[i]) == types[i]);
        assert(distinct_type_names(types.drop_last())) by {
            assert(forall|i: int, k: int|
                #![trigger types.drop_last()[i].export_names@[k]]
                0 <= i < types.drop_last().len() && 0 <= k
                    < types.drop_last()[i].export_names@.len() ==> types.drop_last()[
                i].export_names@[k] == types[i].export_names@[k]);
        }
        lemma_merge_types_props(t0, modified, types.drop_last(), root, base, bdir);
        let prev = spec_merge_types(t0, modified, types.drop_last(), root, base, bdir);
        let last = types.last();
        let r = spec_merge_types(t0, modified, types, root, base, bdir);
        match spec_import_path(root, base, bdir, last.entry_path@) {
            None => {
                assert(r == prev);
                assert forall|i: int, k: int|
                    0 <= i < types.len() && 0 <= k < types[i].export_names@.len()
                        && spec_import_path(root, base, bdir, types[i].entry_path@)
                        is Some implies spec_assoc_get(
                    r.0,
                    (#[trigger] types[i].export_names@[k])@,
                ) == Some(
                    canon_type_line(
                        types[i].export_names@[k]@,
                        spec_import_path(root, base, bdir, types[i].entry_path@).unwrap(),
                    ),
                ) by {
                    if i < types.len() - 1 {
                        assert(types.drop_last()[i] == types[i]);
                    }
                }
            },
            Some(imp) => {
                let lnames = last.export_names@.map_values(|s: String| s@);
                assert(forall|k: int|
                    0 <= k < lnames.len() ==> #[trigger] lnames[k] == last.export_names@[k]@);
                assert(forall|k: int| 0 <= k < lnames.len() ==> clean_type_name(
                    #[trigger] lnames[k],
                ));
                assert(forall|a: int, b: int| 0 <= a < b < lnames.len() ==> lnames[a]
                    != lnames[b]);
                lemma_merge_type_names_props(prev.0, prev.1, lnames, imp);
                let rr = spec_merge_type_names(prev.0, prev.1, lnames, imp);
                assert(r == rr);
                assert forall|i: int, k: int|
                    0 <= i < types.len() && 0 <= k < types[i].export_names@.len()
                        && spec_import_path(root, base, bdir, types[i].entry_path@)
                        is Some implies spec_assoc_get(
                    r.0,
                    (#[trigger] types[i].export_names@[k])@,
                ) == Some(
                    canon_type_line(
                        types[i].export_names@[k]@,
                        spec_import_path(root, base, bdir, types[i].entry_path@).unwrap(),
                    ),
                ) by {
                    if i == types.len() - 1 {
                        assert(lnames[k] == types[i].export_names@[k]@);
                    } else {
                        assert(types.drop_last()[i] == types[i]);
                        assert(forall|w: int|
                            0 <= w < lnames.len() ==> #[trigger] lnames[w] != types[
                        i].export_names@[k]@);
                        assert(spec_assoc_get(r.0, types[i].export_names@[k]@)
                            == spec_assoc_get(prev.0, types[i].export_names@[k]@));
                    }
                }
            },
        }
    }
}

/// Re-merging type names whose canonical lines are already present is a
/// no-op.
proof fn lemma_merge_type_names_noop(
    t: Seq<(Seq<char>, Seq<char>)>,
    names: Seq<Seq<char>>,
    imp: Seq<char>,
)
    requires
        forall|k: int| 0 <= k < names.len() ==> (#[trigger] names[k]).len() > 0,
        forall|k: int|
            0 <= k < names.len() ==> spec_assoc_get(t, #[trigger] names[k]) == Some(
                canon_type_line(names[k], imp),
            ),
    ensures
        spec_merge_type_names(t, false, names, imp) == (t, false),
    decreases names.len(),
{
    if names.len() > 0 {
        assert(forall|i: int|
            0 <= i < names.drop_first().len() ==> (#[trigger] names.drop_first()[i]) == names[i
                + 1]);
        lemma_merge_type_names_noop(t, names.drop_first(), imp);
    }
}

/// Re-merging type specs whose canonical lines are already present is a
/// no-op.
proof fn lemma_merge_types_noop(
    t: Seq<(Seq<char>, Seq<char>)>,
    types: Seq<TypeExportSpec>,
    root: Seq<char>,
    base: Seq<char>,
    bdir: Seq<char>,
)
    requires
        forall|i: int, k: int|
            0 <= i < types.len() && 0 <= k < types[i].export_names@.len() ==> (
            #[trigger] types[i].export_names@[k])@.len() > 0,
        forall|i: int, k: int|
            0 <= i < types.len() && 0 <= k < types[i].export_names@.len() && spec_import_path(
                root,
                base,
                bdir,
                types[i].entry_path@,
            ) is Some ==> spec_assoc_get(t, (#[trigger] types[i].export_names@[k])@) == Some(
                canon_type_line(
                    types[i].export_names@[k]@,
                    spec_import_path(root, base, bdir, types[i].entry_path@).unwrap(),
                ),
            ),
    ensures
        spec_merge_types(t, false, types, root, base, bdir) == (t, false),
    decreases types.len(),
{
    if types.len() > 0 {
        assert(forall|i: int|
            0 <= i < types.drop_last().len() ==> (#[trigger] types.drop_last()[i]) == types[i]);
        lemma_merge_types_noop(t, types.drop_last(), root, base, bdir);
        let last = types.last();
        match spec_import_path(root, base, bdir, last.entry_path@) {
            None => {
            },
            Some(imp) => {
                let lnames = last.export_names@.map_values(|s: String| s@);
                assert(forall|k: int|
                    0 <= k < lnames.len() ==> #[trigger] lnames[k] == last.export_names@[k]@);
                lemma_merge_type_names_noop(t, lnames, imp);
            },
        }
    }
}

/// Rendering the barrel is idempotent: rendering the same exports against
/// the first render's output changes nothing, provided the export names
/// are identifier-clean and pairwise distinct and the computed import
/// paths stay on one line.
pub proof fn lemma_barrel_render_idempotent(
    root: Seq<char>,
    config: Config,
    comps: Seq<ComponentExportSpec>,
    types: Seq<TypeExportSpec>,
    existing: Seq<char>,
    text: Seq<char>,
)
    requires
        spec_render_component_barrel(root, config, comps, types, existing) == Some(text),
        forall|i: int|
            0 <= i < comps.len() ==> clean_export_name((#[trigger] comps[i]).export_name@),
        distinct_component_names(comps),
        forall|i: int, k: int|
            0 <= i < types.len() && 0 <= k < types[i].export_names@.len() ==> clean_type_name(
                (#[trigger] types[i].export_names@[k])@,
            ),
        distinct_type_names(types),
        forall|i: int|
            0 <= i < comps.len() && spec_import_path(
                root,
                config.aliases.components.filesystem@,
                spec_barrel_dir(
                    root,
                    spec_workspace_path(root, config.exports.components.barrel@),
                ),
                (#[trigger] comps[i]).entry_path@,
            ) is Some ==> clean_import_path(
                spec_import_path(
                    root,
                    config.aliases.components.filesystem@,
                    spec_barrel_dir(
                        root,
                        spec_workspace_path(root, config.exports.components.barrel@),
                    ),
                    comps[i].entry_path@,
                ).unwrap(),
            ),
        forall|i: int|
            0 <= i < types.len() && spec_import_path(
                root,
                config.aliases.components.filesystem@,
                spec_barrel_dir(
                    root,
                    spec_workspace_path(root, config.exports.components.barrel@),
                ),
                (#[trigger] types[i]).entry_path@,
            ) is Some ==> clean_import_path(
                spec_import_path(
                    root,
                    config.aliases.components.filesystem@,
                    spec_barrel_dir(
                        root,
                        spec_workspace_path(root, config.exports.components.barrel@),
                    ),
                    types[i].entry_path@,
                ).unwrap(),
            ),
    ensures
        spec_render_component_barrel(root, config, comps, types, text) is None,
{
    let base = config.aliases.components.filesystem@;
    let bdir = spec_barrel_dir(root, spec_workspace_path(root, config.exports.components.barrel@));
    let parsed = spec_parse_barrel(spec_lines(existing));
    let cm = spec_merge_components(parsed.0, false, comps, root, base, bdir);
    let tm = spec_merge_types(parsed.1, cm.1, types, root, base, bdir);
    assert(!(comps.len() == 0 && types.len() == 0));
    assert(tm.1 && cm.0.len() + tm.0.len() > 0);
    assert(text == spec_render_entries(cm.0) + spec_render_entries(tm.0));
    // the first render's maps are well formed
    lemma_lines_nl_free(existing);
    lemma_parse_barrel_ok(spec_lines(existing));
    lemma_merge_components_props(parsed.0, false, comps, root, base, bdir);
    lemma_merge_types_props(parsed.1, cm.1, types, root, base, bdir);
    assert(barrel_maps_ok(cm.0, tm.0));
    // parsing the rendered text gives the maps back
    lemma_parse_of_rendered(cm.0, tm.0);
    // so the second merge changes nothing
    let parsed2 = spec_parse_barrel(spec_lines(text));
    assert(parsed2 == (cm.0, tm.0));
    lemma_merge_components_noop(cm.0, comps, root, base, bdir);
    assert(spec_merge_components(parsed2.0, false, comps, root, base, bdir) == (cm.0, false));
    lemma_merge_types_noop(tm.0, types, root, base, bdir);
    assert(spec_merge_types(tm.0, false, types, root, base, bdir) == (tm.0, false));
}

} // verus!
