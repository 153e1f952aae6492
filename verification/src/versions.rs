//! The version satisfaction checker: decides whether an installed
//! dependency specifier is a superset of a required specifier.
//!
//! Parsing of specifiers and range matching are delegated to the semver
//! crate behind trusted wrappers; the derivation of the minimal concrete
//! version implied by a requirement is the library's own verified logic.

use vstd::prelude::*;

use crate::text::{chars_of, chars_eq, trim_chars, string_from_chars};

verus! {

/// A comparator operator of a version requirement.
#[derive(Clone, Copy, PartialEq, Eq, Debug, Structural)]
pub enum ReqOp {
    Exact,
    Greater,
    GreaterEq,
    Less,
    LessEq,
    Tilde,
    Caret,
    Wildcard,
    Other,
}

/// One comparator of a parsed version requirement.
#[derive(Debug)]
pub struct ReqComparator {
    pub op: ReqOp,
    pub major: u64,
    pub minor: Option<u64>,
    pub patch: Option<u64>,
    pub pre: String,
}

/// The mathematical value of a comparator.
pub struct ReqComparatorV {
    pub op: ReqOp,
    pub major: u64,
    pub minor: Option<u64>,
    pub patch: Option<u64>,
    pub pre: Seq<char>,
}

impl View for ReqComparator {
    type V = ReqComparatorV;

    open spec fn view(&self) -> ReqComparatorV {
        ReqComparatorV {
            op: self.op,
            major: self.major,
            minor: self.minor,
            patch: self.patch,
            pre: self.pre@,
        }
    }
}

/// The values of a sequence of comparators.
pub open spec fn comps_view(s: Seq<ReqComparator>) -> Seq<ReqComparatorV> {
    s.map_values(|c: ReqComparator| c@)
}

/// A concrete version: the anchor derived from a requirement.
#[derive(Debug)]
pub struct SimpleVersion {
    pub major: u64,
    pub minor: u64,
    pub patch: u64,
    pub pre: String,
}

/// The mathematical value of a concrete version.
pub struct SimpleVersionV {
    pub major: u64,
    pub minor: u64,
    pub patch: u64,
    pub pre: Seq<char>,
}

impl View for SimpleVersion {
    type V = SimpleVersionV;

    open spec fn view(&self) -> SimpleVersionV {
        SimpleVersionV {
            major: self.major,
            minor: self.minor,
            patch: self.patch,
            pre: self.pre@,
        }
    }
}

/// What the semver crate parses a requirement string into: its comparators
/// in declaration order, or nothing when the text is not a requirement.
pub uninterp spec fn parsed_req_of(s: Seq<char>) -> Option<Seq<ReqComparatorV>>;

/// Whether the range written in `installed` accepts the version
/// `major.minor.patch[-pre]`, or nothing when `installed` is not a
/// requirement.
pub uninterp spec fn req_match_of(
    installed: Seq<char>,
    major: u64,
    minor: u64,
    patch: u64,
    pre: Seq<char>,
) -> Option<bool>;

/// Relies on semver's `VersionReq::parse`: the comparators of the parsed
/// requirement, in order, with each operator, version component and
/// pre-release moved across unchanged; `None` exactly on a parse error.
#[verifier::external_body]
fn parse_req_comparators(text: &str) -> (r: Option<Vec<ReqComparator>>)
    ensures
        match r {
            Some(v) => parsed_req_of(text@) == Some(comps_view(v@)),
            None => parsed_req_of(text@) is None,
        },
{
    let req = match semver::VersionReq::parse(text) { Ok(r) => r, Err(_) => return None };
    let mut out = Vec::new();
    for c in req.comparators {
        let op = match c.op {
            semver::Op::Exact => ReqOp::Exact, semver::Op::Greater => ReqOp::Greater,
            semver::Op::GreaterEq => ReqOp::GreaterEq, semver::Op::Less => ReqOp::Less,
            semver::Op::LessEq => ReqOp::LessEq, semver::Op::Tilde => ReqOp::Tilde,
            semver::Op::Caret => ReqOp::Caret, semver::Op::Wildcard => ReqOp::Wildcard,
            _ => ReqOp::Other,
        };
        out.push(ReqComparator { op, major: c.major, minor: c.minor, patch: c.patch, pre: c.pre.as_str().to_string() });
    }
    Some(out)
}

/// Relies on semver's `VersionReq::parse` and `VersionReq::matches`: whether
/// the installed range accepts the given version; `None` exactly when
/// `installed` is not a requirement.
#[verifier::external_body]
fn req_matches(installed: &str, major: u64, minor: u64, patch: u64, pre: &str) -> (r: Option<
    bool,
>)
    ensures
        r == req_match_of(installed@, major, minor, patch, pre@),
{
    let req = match semver::VersionReq::parse(installed) { Ok(r) => r, Err(_) => return None };
    let pre = semver::Prerelease::new(pre).unwrap_or(semver::Prerelease::EMPTY);
    let version = semver::Version { major, minor, patch, pre, build: semver::BuildMetadata::EMPTY };
    Some(req.matches(&version))
}

/// An operator whose comparator anchors the minimal version directly.
pub open spec fn spec_is_anchor_op(op: ReqOp) -> bool {
    op == ReqOp::Exact || op == ReqOp::Wildcard || op == ReqOp::Tilde || op == ReqOp::Caret
        || op == ReqOp::GreaterEq
}

/// The version a comparator names, missing minor and patch defaulting to 0.
pub open spec fn spec_version_from(c: ReqComparatorV) -> SimpleVersionV {
    SimpleVersionV {
        major: c.major,
        minor: match c.minor {
            Some(m) => m,
            None => 0,
        },
        patch: match c.patch {
            Some(p) => p,
            None => 0,
        },
        pre: c.pre,
    }
}

/// The version one patch level above `v`, saturating.
pub open spec fn spec_bump_patch(v: SimpleVersionV) -> SimpleVersionV {
    SimpleVersionV {
        major: v.major,
        minor: v.minor,
        patch: if v.patch == u64::MAX {
            u64::MAX
        } else {
            (v.patch + 1) as u64
        },
        pre: v.pre,
    }
}

/// The first comparator that yields an anchor, scanned in declaration
/// order: anchor operators yield their version, a strict lower bound yields
/// its version bumped by one patch, upper bounds are skipped.
pub open spec fn spec_find_anchor(comps: Seq<ReqComparatorV>) -> Option<SimpleVersionV>
    decreases comps.len(),
{
    if comps.len() == 0 {
        None
    } else if spec_is_anchor_op(comps[0].op) {
        Some(spec_version_from(comps[0]))
    } else if comps[0].op == ReqOp::Greater {
        Some(spec_bump_patch(spec_version_from(comps[0])))
    } else {
        spec_find_anchor(comps.drop_first())
    }
}

/// The minimal concrete version implied by a parsed requirement: version
/// zero for an empty requirement, else the first anchor found.
pub open spec fn spec_minimal_version(comps: Seq<ReqComparatorV>) -> Option<SimpleVersionV> {
    if comps.len() == 0 {
        Some(SimpleVersionV { major: 0, minor: 0, patch: 0, pre: Seq::empty() })
    } else {
        spec_find_anchor(comps)
    }
}

proof fn lemma_find_anchor_skip(comps: Seq<ReqComparatorV>, i: int)
    requires
        0 <= i <= comps.len(),
        forall|j: int|
            0 <= j < i ==> !spec_is_anchor_op(#[trigger] comps[j].op) && comps[j].op
                != ReqOp::Greater,
    ensures
        spec_find_anchor(comps) == spec_find_anchor(comps.skip(i)),
    decreases i,
{
    if i > 0 {
        lemma_find_anchor_skip(comps.drop_first(), i - 1);
        assert(comps.drop_first().skip(i - 1) =~= comps.skip(i));
    } else {
        assert(comps.skip(0) =~= comps);
    }
}

/// The version a comparator names, missing minor and patch defaulting to 0.
pub fn version_from_comparator(comparator: &ReqComparator) -> (r: SimpleVersion)
    ensures
        r@ == spec_version_from(comparator@),
{
    SimpleVersion {
        major: comparator.major,
        minor: match comparator.minor {
            Some(m) => m,
            None => 0,
        },
        patch: match comparator.patch {
            Some(p) => p,
            None => 0,
        },
        pre: comparator.pre.clone(),
    }
}

/// Raises `version` by one patch level, saturating.
pub fn increment_patch(version: &mut SimpleVersion)
    ensures
        final(version)@ == spec_bump_patch(old(version)@),
{
    if version.patch < u64::MAX {
        version.patch = version.patch + 1;
    }
}

/// The minimal concrete version implied by a requirement's comparators.
pub fn minimal_version(comps: &Vec<ReqComparator>) -> (r: Option<SimpleVersion>)
    ensures
        match r {
            Some(v) => spec_minimal_version(comps_view(comps@)) == Some(v@),
            None => spec_minimal_version(comps_view(comps@)) is None,
        },
{
    let n = comps.len();
    if n == 0 {
        return Some(SimpleVersion { major: 0, minor: 0, patch: 0, pre: String::new() });
    }
    let ghost cv = comps_view(comps@);
    let mut i: usize = 0;
    while i < n
        invariant
            n == comps@.len(),
            cv == comps_view(comps@),
            cv.len() == n,
            i <= n,
            forall|j: int|
                0 <= j < i ==> !spec_is_anchor_op(#[trigger] cv[j].op) && cv[j].op
                    != ReqOp::Greater,
        decreases n - i,
    {
        proof {
            assert(cv[i as int] == comps@[i as int]@);
        }
        let op = comps[i].op;
        if op == ReqOp::Exact || op == ReqOp::Wildcard || op == ReqOp::Tilde || op == ReqOp::Caret
            || op == ReqOp::GreaterEq {
            let v = version_from_comparator(&comps[i]);
            proof {
                lemma_find_anchor_skip(cv, i as int);
                assert(cv.skip(i as int)[0] == cv[i as int]);
            }
            return Some(v);
        }
        if op == ReqOp::Greater {
            let mut v = version_from_comparator(&comps[i]);
            increment_patch(&mut v);
            proof {
                lemma_find_anchor_skip(cv, i as int);
                assert(cv.skip(i as int)[0] == cv[i as int]);
            }
            return Some(v);
        }
        i = i + 1;
    }
    proof {
        lemma_find_anchor_skip(cv, n as int);
        assert(cv.skip(n as int).len() == 0);
    }
    None
}

/// The view of an optional string slice.
pub open spec fn opt_str_view(o: Option<&str>) -> Option<Seq<char>> {
    match o {
        Some(s) => Some(s@),
        None => None,
    }
}

/// What `spec_satisfies` returns: false when either side is absent or
/// blank; true on exact (trimmed) string equality; otherwise the installed
/// range, read as a requirement, must accept the minimal version implied by
/// the required specifier, any parse failure answering false.
pub open spec fn satisfies_model(installed: Option<Seq<char>>, required: Seq<char>) -> bool {
    match installed {
        None => false,
        Some(inst0) => {
            let inst = crate::text::spec_trim(inst0);
            let req = crate::text::spec_trim(required);
            if inst.len() == 0 || req.len() == 0 {
                false
            } else if inst == req {
                true
            } else {
                match parsed_req_of(req) {
                    None => false,
                    Some(comps) => match spec_minimal_version(comps) {
                        None => false,
                        Some(mv) => match req_match_of(
                            inst,
                            mv.major,
                            mv.minor,
                            mv.patch,
                            mv.pre,
                        ) {
                            None => false,
                            Some(b) => b,
                        },
                    },
                }
            }
        },
    }
}

/// Decides whether the installed specifier satisfies the required one.
pub fn spec_satisfies(installed: Option<&str>, required: &str) -> (r: bool)
    ensures
        r == satisfies_model(opt_str_view(installed), required@),
{
    let inst_raw = match installed {
        Some(value) => value,
        None => {
            return false;
        },
    };
    let inst_chars = trim_chars(&chars_of(inst_raw));
    let req_chars = trim_chars(&chars_of(required));
    if inst_chars.len() == 0 || req_chars.len() == 0 {
        return false;
    }
    if chars_eq(&inst_chars, &req_chars) {
        return true;
    }
    let inst = string_from_chars(&inst_chars);
    let req = string_from_chars(&req_chars);
    let comps = match parse_req_comparators(req.as_str()) {
        Some(comps) => comps,
        None => {
            return false;
        },
    };
    let minimal = match minimal_version(&comps) {
        Some(v) => v,
        None => {
            return false;
        },
    };
    match req_matches(inst.as_str(), minimal.major, minimal.minor, minimal.patch,
        minimal.pre.as_str()) {
        Some(b) => b,
        None => false,
    }
}

} // verus!
