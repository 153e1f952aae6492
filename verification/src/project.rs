//! Workspace inspection decisions: which package manager the lockfiles
//! imply, and what the package manifest says about the framework.
//!
//! Walking the file system and reading `package.json` happen outside the
//! library; the decisions on what was found are made here.

use vstd::prelude::*;

use crate::strmap::spec_assoc_get;
use crate::text::{chars_of, is_digit, spec_is_digit, trim_chars, sub_chars};

verus! {

/// The package managers recognised by lockfile sniffing.
#[derive(Clone, Copy, PartialEq, Eq, Debug, Structural)]
pub enum PackageManagerKind {
    Npm,
    Pnpm,
    Yarn,
    Bun,
    Unknown,
}

/// Which lockfiles one directory holds.
#[derive(Clone, Copy, PartialEq, Eq, Debug, Structural)]
pub struct DirLockfiles {
    pub pnpm_lock: bool,
    pub yarn_lock: bool,
    pub bun_lockb: bool,
    pub bun_lock: bool,
    pub package_lock: bool,
}

/// The manager one directory's lockfiles select, highest priority first.
pub open spec fn spec_dir_manager(d: DirLockfiles) -> Option<PackageManagerKind> {
    if d.pnpm_lock {
        Some(PackageManagerKind::Pnpm)
    } else if d.yarn_lock {
        Some(PackageManagerKind::Yarn)
    } else if d.bun_lockb || d.bun_lock {
        Some(PackageManagerKind::Bun)
    } else if d.package_lock {
        Some(PackageManagerKind::Npm)
    } else {
        None
    }
}

/// The manager selected by a chain of directories, nearest first.
pub open spec fn spec_detect_package_manager(dirs: Seq<DirLockfiles>) -> PackageManagerKind
    decreases dirs.len(),
{
    if dirs.len() == 0 {
        PackageManagerKind::Unknown
    } else {
        match spec_dir_manager(dirs[0]) {
            Some(m) => m,
            None => spec_detect_package_manager(dirs.drop_first()),
        }
    }
}

/// Decides the active package manager from the lockfiles found in each
/// directory from the workspace root upward (nearest directory first):
/// pnpm, then yarn, then bun, then npm; unknown when no directory has a
/// lockfile.
pub fn detect_package_manager(dirs: &Vec<DirLockfiles>) -> (r: PackageManagerKind)
    ensures
        r == spec_detect_package_manager(dirs@),
{
    let n = dirs.len();
    let mut i: usize = 0;
    proof {
        assert(dirs@.skip(0) =~= dirs@);
    }
    while i < n
        invariant
            n == dirs@.len(),
            i <= n,
            spec_detect_package_manager(dirs@) == spec_detect_package_manager(
                dirs@.skip(i as int),
            ),
        decreases n - i,
    {
        let d = dirs[i];
        proof {
            assert(dirs@.skip(i as int)[0] == dirs@[i as int]);
            assert(dirs@.skip(i as int).drop_first() =~= dirs@.skip(i + 1));
        }
        if d.pnpm_lock {
            return PackageManagerKind::Pnpm;
        }
        if d.yarn_lock {
            return PackageManagerKind::Yarn;
        }
        if d.bun_lockb || d.bun_lock {
            return PackageManagerKind::Bun;
        }
        if d.package_lock {
            return PackageManagerKind::Npm;
        }
        i = i + 1;
    }
    proof {
        assert(dirs@.skip(n as int).len() == 0);
    }
    PackageManagerKind::Unknown
}

/// The frameworks the manifest can reveal.
#[derive(Clone, Copy, PartialEq, Eq, Debug, Structural)]
pub enum FrameworkKind {
    SvelteKit,
    ViteSvelte,
    Unknown,
}

/// What the workspace's package manifest says about its framework and
/// the supported tool versions.
pub struct FrameworkDetection {
    pub framework: FrameworkKind,
    pub svelte_version: Option<String>,
    pub is_svelte_supported: bool,
    pub tailwind_version: Option<String>,
    pub tailwind_supported: bool,
}

/// What can go wrong reading the package manifest.
pub enum ProjectError {
    PackageRead(String),
    PackageParse(String),
}

/// The leading major version of a specifier: operators and junk before
/// the first digit are skipped, digits are taken up to the first
/// non-digit, and the result must fit in a u64.
pub open spec fn spec_digit_run(s: Seq<char>, from: int) -> Seq<char>
    decreases s.len() - from,
{
    if from < 0 || from >= s.len() || !spec_is_digit(s[from]) {
        Seq::<char>::empty()
    } else {
        seq![s[from]] + spec_digit_run(s, from + 1)
    }
}

/// The digits a major-version scan collects: from the first digit of the
/// trimmed specifier, up to the first later non-digit.
pub open spec fn spec_major_digits(s: Seq<char>) -> Seq<char> {
    let t = crate::text::spec_trim(s);
    match crate::components::spec_find_char(Seq::new(t.len(), |i: int| if spec_is_digit(t[i]) { '0' } else { 'x' }), '0', 0) {
        None => Seq::<char>::empty(),
        Some(i) => spec_digit_run(t, i),
    }
}

/// The numeric value of a digit sequence.
pub open spec fn spec_digits_value(d: Seq<char>) -> int
    decreases d.len(),
{
    if d.len() == 0 {
        0
    } else {
        spec_digits_value(d.drop_last()) * 10 + (d.last() as int - '0' as int)
    }
}

/// Reads the major version out of a specifier such as `^5.0.0`: the first
/// run of digits, `None` when there is none or it overflows.
pub fn parse_major(version: &str) -> (r: Option<u64>)
    ensures
        match r {
            Some(v) => spec_major_digits(version@).len() > 0 && v as int == spec_digits_value(
                spec_major_digits(version@),
            ),
            None => spec_major_digits(version@).len() == 0 || spec_digits_value(
                spec_major_digits(version@),
            ) > u64::MAX,
        },
{
    let t = trim_chars(&chars_of(version));
    let n = t.len();
    let ghost tv = t@;
    let ghost marker = Seq::new(tv.len(), |i: int| if spec_is_digit(tv[i]) { '0' } else { 'x' });
    // find the first digit
    let mut i: usize = 0;
    while i < n && !is_digit(t[i])
        invariant
            n == tv.len(),
            t@ == tv,
            i <= n,
            forall|j: int| 0 <= j < i ==> !spec_is_digit(tv[j]),
        decreases n - i,
    {
        i = i + 1;
    }
    proof {
        crate::components::lemma_find_char_spec(marker, '0', 0);
        assert(forall|j: int| 0 <= j < marker.len() ==> (marker[j] == '0') == spec_is_digit(
            tv[j],
        ));
        if i < n {
            assert(marker[i as int] == '0');
            match crate::components::spec_find_char(marker, '0', 0) {
                Some(k) => {
                    assert(marker[k] == '0');
                    if k < i {
                        assert(!spec_is_digit(tv[k]));
                        assert(false);
                    }
                    if k > i {
                        assert(marker[i as int] != '0');
                        assert(false);
                    }
                },
                None => {
                    assert(marker[i as int] != '0');
                    assert(false);
                },
            }
            assert(crate::components::spec_find_char(marker, '0', 0) == Some(i as int));
        } else {
            match crate::components::spec_find_char(marker, '0', 0) {
                Some(k) => {
                    assert(marker[k] == '0');
                    assert(spec_is_digit(tv[k]));
                    assert(false);
                },
                None => {},
            }
        }
    }
    if i == n {
        proof {
            assert(spec_major_digits(version@).len() == 0);
        }
        return None;
    }
    // accumulate digits, checking for overflow
    let ghost digits = spec_digit_run(tv, i as int);
    proof {
        assert(digits == spec_major_digits(version@));
    }
    let mut value: u64 = 0;
    let mut k: usize = i;
    let ghost mut seen: Seq<char> = Seq::empty();
    proof {
        lemma_digit_run_split(tv, i as int, i as int);
    }
    while k < n && is_digit(t[k])
        invariant
            n == tv.len(),
            t@ == tv,
            i <= k <= n,
            digits == spec_digit_run(tv, i as int),
            digits == spec_major_digits(version@),
            seen == tv.subrange(i as int, k as int),
            forall|j: int| i <= j < k ==> spec_is_digit(tv[j]),
            seen + spec_digit_run(tv, k as int) == digits,
            value as int == spec_digits_value(seen),
        decreases n - k,
    {
        let c = t[k];
        let d: u64 = (c as u8 - 48) as u64;
        if value > 1844674407370955161u64 || (value == 1844674407370955161u64 && d > 5) {
            // the digit run no longer fits in a u64
            proof {
                lemma_digits_value_monotone(tv, i as int, k as int, seen, value as int, d as int);
            }
            return None;
        }
        value = value * 10 + d;
        proof {
            assert(spec_digit_run(tv, k as int) == seq![tv[k as int]] + spec_digit_run(
                tv,
                k + 1,
            ));
            seen = seen.push(c);
            assert(seen =~= tv.subrange(i as int, k + 1 as int));
            assert(seen.drop_last() =~= tv.subrange(i as int, k as int));
            assert(seen + spec_digit_run(tv, k + 1) =~= digits);
            assert(value as int == spec_digits_value(seen)) by {
                assert(spec_digits_value(seen) == spec_digits_value(seen.drop_last()) * 10 + (
                c as int - '0' as int));
            }
        }
        k = k + 1;
    }
    proof {
        if k < n {
            assert(!spec_is_digit(tv[k as int]));
        }
        assert(spec_digit_run(tv, k as int) =~= Seq::<char>::empty());
        assert(seen + Seq::<char>::empty() =~= seen);
        assert(seen == digits);
        assert(digits.len() > 0) by {
            assert(spec_is_digit(tv[i as int]));
            assert(digits == seq![tv[i as int]] + spec_digit_run(tv, i + 1));
        }
        assert(spec_major_digits(version@) == digits);
    }
    Some(value)
}

/// A digit run splits as the digits seen so far plus the rest.
proof fn lemma_digit_run_split(s: Seq<char>, i: int, k: int)
    requires
        0 <= i <= k <= s.len(),
        forall|j: int| i <= j < k ==> spec_is_digit(s[j]),
    ensures
        s.subrange(i, k) + spec_digit_run(s, k) == spec_digit_run(s, i),
    decreases k - i,
{
    if i < k {
        lemma_digit_run_split(s, i + 1, k);
        assert(spec_digit_run(s, i) == seq![s[i]] + spec_digit_run(s, i + 1));
        assert(s.subrange(i, k) =~= seq![s[i]] + s.subrange(i + 1, k));
        assert(s.subrange(i, k) + spec_digit_run(s, k) =~= seq![s[i]] + (s.subrange(i + 1, k)
            + spec_digit_run(s, k)));
    } else {
        assert(s.subrange(i, i) =~= Seq::<char>::empty());
        assert(s.subrange(i, i) + spec_digit_run(s, i) =~= spec_digit_run(s, i));
    }
}

/// Digit-sequence values grow with extensions: once the prefix value with
/// one more digit exceeds `u64::MAX`, so does the whole run's value.
proof fn lemma_digits_value_monotone(
    s: Seq<char>,
    i: int,
    k: int,
    seen: Seq<char>,
    value: int,
    d: int,
)
    requires
        0 <= i <= k < s.len(),
        forall|j: int| i <= j < k ==> spec_is_digit(s[j]),
        spec_is_digit(s[k]),
        seen == s.subrange(i, k),
        value == spec_digits_value(seen),
        d == s[k] as int - '0' as int,
        value * 10 + d > u64::MAX,
        seen + spec_digit_run(s, k) == spec_digit_run(s, i),
    ensures
        spec_digits_value(spec_digit_run(s, i)) > u64::MAX,
{
    let run = spec_digit_run(s, i);
    let ext = seen.push(s[k]);
    assert(spec_digits_value(ext) == value * 10 + d) by {
        assert(ext.drop_last() =~= seen);
    }
    assert(ext =~= s.subrange(i, k + 1));
    lemma_digit_run_split(s, i, k + 1);
    assert(ext + spec_digit_run(s, k + 1) == run);
    lemma_digit_run_digits(s, k + 1);
    assert(forall|j: int| 0 <= j < ext.len() ==> spec_is_digit(#[trigger] ext[j]));
    lemma_digits_value_prefix(ext, spec_digit_run(s, k + 1));
}

/// Appending digits never lowers the value of the whole sequence below
/// the value of the prefix.
proof fn lemma_digits_value_prefix(a: Seq<char>, b: Seq<char>)
    requires
        forall|i: int| 0 <= i < a.len() ==> spec_is_digit(#[trigger] a[i]),
        forall|i: int| 0 <= i < b.len() ==> spec_is_digit(#[trigger] b[i]),
    ensures
        spec_digits_value(a + b) >= spec_digits_value(a),
    decreases b.len(),
{
    if b.len() == 0 {
        assert(a + b =~= a);
    } else {
        lemma_digits_value_prefix(a, b.drop_last());
        assert((a + b).drop_last() =~= a + b.drop_last());
        assert(spec_digits_value(a + b) == spec_digits_value(a + b.drop_last()) * 10 + ((a
            + b).last() as int - '0' as int));
        assert(forall|i: int|
            0 <= i < (a + b.drop_last()).len() ==> spec_is_digit(
                #[trigger] (a + b.drop_last())[i],
            ));
        lemma_digits_value_nonneg(a + b.drop_last());
        assert((a + b).last() == b.last());
        assert(spec_is_digit(b.last()));
    }
}

/// A digit-sequence value is never negative.
proof fn lemma_digits_value_nonneg(d: Seq<char>)
    requires
        forall|i: int| 0 <= i < d.len() ==> spec_is_digit(#[trigger] d[i]),
    ensures
        spec_digits_value(d) >= 0,
    decreases d.len(),
{
    if d.len() > 0 {
        lemma_digits_value_nonneg(d.drop_last());
        assert(spec_is_digit(d.last()));
    }
}

/// Every character of a digit run is a digit.
proof fn lemma_digit_run_digits(s: Seq<char>, i: int)
    ensures
        forall|j: int|
            0 <= j < spec_digit_run(s, i).len() ==> spec_is_digit(
                #[trigger] spec_digit_run(s, i)[j],
            ),
    decreases s.len() - i,
{
    if 0 <= i < s.len() && spec_is_digit(s[i]) {
        lemma_digit_run_digits(s, i + 1);
        assert(forall|j: int|
            1 <= j < spec_digit_run(s, i).len() ==> spec_digit_run(s, i)[j] == spec_digit_run(
                s,
                i + 1,
            )[j - 1]);
    }
}

/// What the manifest lookup of one package yields.
pub open spec fn spec_pkg_lookup(
    snap: crate::planner::PackageSnapshot,
    name: Seq<char>,
) -> Option<Seq<char>> {
    crate::planner::spec_snapshot_lookup(snap, name)
}

/// Whether a looked-up version's major is at least `min`.
pub open spec fn spec_major_at_least(v: Option<Seq<char>>, min: int) -> bool {
    match v {
        None => false,
        Some(s) => {
            let d = spec_major_digits(s);
            d.len() > 0 && 0 <= spec_digits_value(d) <= u64::MAX && spec_digits_value(d) >= min
        },
    }
}

/// Reads the framework facts out of the package manifest snapshot: the
/// framework kind from which integration packages are present, and
/// whether the Svelte and Tailwind versions are supported (at least 5 and
/// 4 respectively).
pub fn detect_framework(snapshot: &crate::planner::PackageSnapshot) -> (r: FrameworkDetection)
    requires
        snapshot.wf(),
    ensures
        r.framework == (if spec_pkg_lookup(*snapshot, "@sveltejs/kit"@) is Some {
            FrameworkKind::SvelteKit
        } else if spec_pkg_lookup(*snapshot, "@sveltejs/vite-plugin-svelte"@) is Some
            || spec_pkg_lookup(*snapshot, "@sveltejs/adapter-auto"@) is Some {
            FrameworkKind::ViteSvelte
        } else {
            FrameworkKind::Unknown
        }),
        (match r.svelte_version {
            Some(v) => spec_pkg_lookup(*snapshot, "svelte"@) == Some(v@),
            None => spec_pkg_lookup(*snapshot, "svelte"@) is None,
        }),
        r.is_svelte_supported == spec_major_at_least(spec_pkg_lookup(*snapshot, "svelte"@), 5),
        (match r.tailwind_version {
            Some(v) => spec_pkg_lookup(*snapshot, "tailwindcss"@) == Some(v@),
            None => spec_pkg_lookup(*snapshot, "tailwindcss"@) is None,
        }),
        r.tailwind_supported == spec_major_at_least(
            spec_pkg_lookup(*snapshot, "tailwindcss"@),
            4,
        ),
{
    let framework = if matches_some(snapshot.spec_of("@sveltejs/kit")) {
        FrameworkKind::SvelteKit
    } else if matches_some(snapshot.spec_of("@sveltejs/vite-plugin-svelte")) || matches_some(
        snapshot.spec_of("@sveltejs/adapter-auto"),
    ) {
        FrameworkKind::ViteSvelte
    } else {
        FrameworkKind::Unknown
    };
    let svelte_version: Option<String> = match snapshot.spec_of("svelte") {
        Some(v) => Some(v.clone()),
        None => None,
    };
    let is_svelte_supported = match &svelte_version {
        Some(v) => match parse_major(v.as_str()) {
            Some(major) => major >= 5,
            None => false,
        },
        None => false,
    };
    let tailwind_version: Option<String> = match snapshot.spec_of("tailwindcss") {
        Some(v) => Some(v.clone()),
        None => None,
    };
    let tailwind_supported = match &tailwind_version {
        Some(v) => match parse_major(v.as_str()) {
            Some(major) => major >= 4,
            None => false,
        },
        None => false,
    };
    FrameworkDetection {
        framework,
        svelte_version,
        is_svelte_supported,
        tailwind_version,
        tailwind_supported,
    }
}

/// Whether an optional lookup produced a value.
fn matches_some(v: Option<&String>) -> (r: bool)
    ensures
        r == (v is Some),
{
    match v {
        Some(_) => true,
        None => false,
    }
}

} // verus!
