//! The install planner and apply engine: computing the dependency closure
//! of the requested components, resolving file destinations, classifying
//! each file against the disk snapshot, aggregating dependency
//! requirements, and turning an approved plan into concrete writes and
//! install actions.

use vstd::prelude::*;

use crate::components::{
    ComponentExportSpec, TypeExportSpec, spec_resolve_destination, resolve_component_destination,
    spec_rfind_char, lemma_rfind_char_spec,
};
use crate::config::Config;
use crate::paths::{spec_workspace_path, workspace_path};
use crate::project::PackageManagerKind;
use crate::registry::{
    Registry, ComponentRecord, ComponentFileRecord, RegistryError, components_assoc,
};
use crate::strmap::{StrMap, spec_assoc_get, spec_assoc_insert};
use crate::text::{
    chars_of, chars_eq, string_from_chars, spec_is_alnum, spec_upper, is_alnum, upper, rfind_char,
    starts_with_at, sub_chars,
};

verus! {

/// The components a command asked to install.
pub struct AddOptions {
    pub components: Vec<String>,
}

/// How far a planned file's new content agrees with the disk.
#[derive(Clone, Copy, PartialEq, Eq, Debug, Structural)]
pub enum PlannedFileStatus {
    Create,
    Update,
    Unchanged,
}

/// One file the plan will materialize.
pub struct PlannedFile {
    pub component_name: String,
    pub registry_path: String,
    pub destination: String,
    pub contents: Vec<u8>,
    pub existing_contents: Option<Vec<u8>>,
    pub status: PlannedFileStatus,
    pub apply: bool,
}

/// The mathematical value of a planned file.
#[verifier::ext_equal]
pub struct PlannedFileV {
    pub component_name: Seq<char>,
    pub registry_path: Seq<char>,
    pub destination: Seq<char>,
    pub contents: Seq<u8>,
    pub existing_contents: Option<Seq<u8>>,
    pub status: PlannedFileStatus,
    pub apply: bool,
}

impl View for PlannedFile {
    type V = PlannedFileV;

    open spec fn view(&self) -> PlannedFileV {
        PlannedFileV {
            component_name: self.component_name@,
            registry_path: self.registry_path@,
            destination: self.destination@,
            contents: self.contents@,
            existing_contents: match self.existing_contents {
                Some(b) => Some(b@),
                None => None,
            },
            status: self.status,
            apply: self.apply,
        }
    }
}

/// A read-only snapshot of file contents on disk, keyed by path; lookups
/// take the first entry for a path.
pub struct DiskSnapshot {
    paths: Vec<String>,
    contents: Vec<Vec<u8>>,
}

impl View for DiskSnapshot {
    type V = Seq<(Seq<char>, Seq<u8>)>;

    closed spec fn view(&self) -> Seq<(Seq<char>, Seq<u8>)> {
        Seq::new(self.paths@.len(), |i: int| (self.paths@[i]@, self.contents@[i]@))
    }
}

impl DiskSnapshot {
    pub closed spec fn wf(&self) -> bool {
        self.paths@.len() == self.contents@.len()
    }

    pub fn new() -> (r: DiskSnapshot)
        ensures
            r.wf(),
            r@ == Seq::<(Seq<char>, Seq<u8>)>::empty(),
    {
        let r = DiskSnapshot { paths: Vec::new(), contents: Vec::new() };
        proof {
            assert(r@ =~= Seq::<(Seq<char>, Seq<u8>)>::empty());
        }
        r
    }

    /// Records that `path` currently holds `bytes`.
    pub fn record(&mut self, path: String, bytes: Vec<u8>)
        requires
            old(self).wf(),
        ensures
            final(self).wf(),
            final(self)@ == old(self)@.push((path@, bytes@)),
    {
        self.paths.push(path);
        self.contents.push(bytes);
        proof {
            assert(self@ =~= old(self)@.push((self.paths@.last()@, self.contents@.last()@)));
        }
    }

    /// The recorded contents of `path`, if any.
    pub fn get(&self, path: &str) -> (r: Option<&Vec<u8>>)
        requires
            self.wf(),
        ensures
            match r {
                Some(b) => spec_assoc_get(self@, path@) == Some(b@),
                None => spec_assoc_get(self@, path@) is None,
            },
    {
        let pc = chars_of(path);
        let n = self.paths.len();
        let mut i: usize = 0;
        while i < n
            invariant
                self.wf(),
                n == self@.len(),
                i <= n,
                pc@ == path@,
                forall|j: int| 0 <= j < i ==> self@[j].0 != path@,
            decreases n - i,
        {
            let ki = chars_of(self.paths[i].as_str());
            if chars_eq(&ki, &pc) {
                proof {
                    crate::strmap::lemma_assoc_get_at(self@, path@, i as int);
                }
                return Some(&self.contents[i]);
            }
            i = i + 1;
        }
        proof {
            crate::strmap::lemma_assoc_get_absent(self@, path@);
        }
        None
    }
}

/// The dependency maps read out of the workspace's package manifest.
pub struct PackageSnapshot {
    pub dependencies: StrMap,
    pub dev_dependencies: StrMap,
}

/// What the snapshot knows about `name`: its runtime entry first, its dev
/// entry otherwise.
pub open spec fn spec_snapshot_lookup(snap: PackageSnapshot, name: Seq<char>) -> Option<
    Seq<char>,
> {
    match spec_assoc_get(snap.dependencies@, name) {
        Some(v) => Some(v),
        None => spec_assoc_get(snap.dev_dependencies@, name),
    }
}

impl PackageSnapshot {
    pub open spec fn wf(&self) -> bool {
        self.dependencies.wf() && self.dev_dependencies.wf()
    }

    /// An empty snapshot, as used when no package manifest is readable.
    pub fn empty() -> (r: PackageSnapshot)
        ensures
            r.wf(),
            r.dependencies@ == Seq::<(Seq<char>, Seq<char>)>::empty(),
            r.dev_dependencies@ == Seq::<(Seq<char>, Seq<char>)>::empty(),
    {
        PackageSnapshot { dependencies: StrMap::new(), dev_dependencies: StrMap::new() }
    }

    /// The specifier installed for `name`, if any.
    pub fn spec_of(&self, name: &str) -> (r: Option<&String>)
        requires
            self.wf(),
        ensures
            match r {
                Some(v) => spec_snapshot_lookup(*self, name@) == Some(v@),
                None => spec_snapshot_lookup(*self, name@) is None,
            },
    {
        match self.dependencies.get(name) {
            Some(v) => Some(v),
            None => self.dev_dependencies.get(name),
        }
    }
}

/// PascalCase over maximal alphanumeric runs: the first character of each
/// run is upper-cased, separators are dropped.
pub open spec fn spec_pascal_rec(s: Seq<char>, at_start: bool) -> Seq<char>
    decreases s.len(),
{
    if s.len() == 0 {
        Seq::<char>::empty()
    } else {
        let c = s[0];
        if !spec_is_alnum(c) {
            spec_pascal_rec(s.drop_first(), true)
        } else if at_start {
            seq![spec_upper(c)] + spec_pascal_rec(s.drop_first(), false)
        } else {
            seq![c] + spec_pascal_rec(s.drop_first(), false)
        }
    }
}

/// The identifier-safe export name derived from `s`.
pub open spec fn spec_format_export_name(s: Seq<char>) -> Seq<char> {
    spec_pascal_rec(s, true)
}

/// Splits on non-alphanumeric ASCII, upper-cases the first character of
/// each remaining segment and concatenates.
pub fn format_export_name(identifier: &str) -> (r: String)
    ensures
        r@ == spec_format_export_name(identifier@),
{
    let chars = chars_of(identifier);
    let n = chars.len();
    let mut out: Vec<char> = Vec::new();
    let mut at_start: bool = true;
    let mut i: usize = 0;
    proof {
        assert(chars@.skip(0) =~= chars@);
    }
    while i < n
        invariant
            n == chars@.len(),
            i <= n,
            chars@ == identifier@,
            out@ + spec_pascal_rec(chars@.skip(i as int), at_start) == spec_format_export_name(
                identifier@,
            ),
        decreases n - i,
    {
        let c = chars[i];
        proof {
            assert(chars@.skip(i as int)[0] == chars@[i as int]);
            assert(chars@.skip(i as int).drop_first() =~= chars@.skip(i + 1));
        }
        if !is_alnum(c) {
            at_start = true;
        } else if at_start {
            out.push(upper(c));
            proof {
                assert(out@ + spec_pascal_rec(chars@.skip(i + 1), false) =~= (out@.drop_last()
                    + (seq![spec_upper(c)] + spec_pascal_rec(chars@.skip(i + 1), false))));
            }
            at_start = false;
        } else {
            out.push(c);
            proof {
                assert(out@ + spec_pascal_rec(chars@.skip(i + 1), false) =~= (out@.drop_last()
                    + (seq![c] + spec_pascal_rec(chars@.skip(i + 1), false))));
            }
        }
        i = i + 1;
    }
    proof {
        assert(chars@.skip(n as int).len() == 0);
        assert(out@ + Seq::<char>::empty() =~= out@);
    }
    string_from_chars(&out)
}

/// A file is an explicit entry point when its kind tag is `entry`.
pub open spec fn spec_is_entry_file(file: ComponentFileRecord) -> bool {
    crate::components::opt_string_view(file.kind) == Some("entry"@)
}

/// Whether the catalog marks this file as an entry point.
pub fn is_entry_file(file: &ComponentFileRecord) -> (r: bool)
    ensures
        r == spec_is_entry_file(*file),
{
    match &file.kind {
        Some(k) => {
            let kc = chars_of(k.as_str());
            chars_eq(&kc, &chars_of("entry"))
        },
        None => false,
    }
}

/// The last slash-separated segment of a path.
pub open spec fn spec_last_segment(s: Seq<char>) -> Seq<char> {
    match spec_rfind_char(s, '/') {
        Some(i) => s.subrange(i + 1, s.len() as int),
        None => s,
    }
}

/// A file whose name ends in the component-language extension.
pub open spec fn spec_is_svelte_file(file: ComponentFileRecord) -> bool {
    let seg = spec_last_segment(file.path@);
    let ext = ".svelte"@;
    seg.len() >= ext.len() && seg.subrange(seg.len() - ext.len(), seg.len() as int) == ext
}

/// Whether the file's name ends in `.svelte`.
pub fn is_svelte_file(file: &ComponentFileRecord) -> (r: bool)
    ensures
        r == spec_is_svelte_file(*file),
{
    let chars = chars_of(file.path.as_str());
    let n = chars.len();
    let seg: Vec<char> = match rfind_char(&chars, '/') {
        Some(i) => {
            proof {
                lemma_rfind_char_spec(file.path@, '/');
                match spec_rfind_char(file.path@, '/') {
                    Some(k) => {
                        if k > i {
                            assert(chars@[k] == '/');
                            assert(false);
                        }
                        if k < i {
                            assert(chars@[i as int] != '/');
                            assert(false);
                        }
                    },
                    None => {
                        assert(chars@[i as int] != '/');
                        assert(false);
                    },
                }
            }
            sub_chars(&chars, i + 1, n)
        },
        None => {
            proof {
                lemma_rfind_char_spec(file.path@, '/');
                match spec_rfind_char(file.path@, '/') {
                    Some(k) => {
                        assert(chars@[k] == '/');
                        assert(false);
                    },
                    None => {},
                }
            }
            sub_chars(&chars, 0, n)
        },
    };
    proof {
        assert(chars@.subrange(0, n as int) =~= chars@);
        assert(seg@ == spec_last_segment(file.path@));
    }
    let ext = chars_of(".svelte");
    let sl = seg.len();
    let el = ext.len();
    if sl >= el && starts_with_at(&seg, &ext, sl - el) {
        proof {
            assert(seg@.subrange(sl - el, sl as int) == ext@);
        }
        true
    } else {
        proof {
            if sl >= el {
                assert(!crate::text::match_at(seg@, ext@, sl - el));
                assert(seg@.subrange(sl - el, sl as int) != ext@);
            }
        }
        false
    }
}

/// The stem of a path: its last segment up to the last dot, when that dot
/// is not the segment's first character.
pub open spec fn spec_file_stem(s: Seq<char>) -> Seq<char> {
    let seg = spec_last_segment(s);
    match spec_rfind_char(seg, '.') {
        Some(i) => {
            if i > 0 {
                seg.subrange(0, i)
            } else {
                seg
            }
        },
        None => seg,
    }
}

/// The export identifier for the entry at `index`: the slug's PascalCase
/// form for the first entry, the entry file's stem for later ones.
pub open spec fn spec_entry_export_name(slug: Seq<char>, entry_path: Seq<char>, index: int) -> Seq<
    char,
> {
    if index == 0 {
        spec_format_export_name(slug)
    } else {
        spec_format_export_name(spec_file_stem(entry_path))
    }
}

/// Derives the export identifier for one entry file of a component.
pub fn entry_export_name(slug: &str, entry_path: &str, index: usize) -> (r: String)
    ensures
        r@ == spec_entry_export_name(slug@, entry_path@, index as int),
{
    if index == 0 {
        return format_export_name(slug);
    }
    let chars = chars_of(entry_path);
    let n = chars.len();
    let seg: Vec<char> = match rfind_char(&chars, '/') {
        Some(i) => {
            proof {
                lemma_rfind_char_spec(entry_path@, '/');
                match spec_rfind_char(entry_path@, '/') {
                    Some(k) => {
                        if k > i {
                            assert(chars@[k] == '/');
                            assert(false);
                        }
                        if k < i {
                            assert(chars@[i as int] != '/');
                            assert(false);
                        }
                    },
                    None => {
                        assert(chars@[i as int] != '/');
                        assert(false);
                    },
                }
            }
            sub_chars(&chars, i + 1, n)
        },
        None => {
            proof {
                lemma_rfind_char_spec(entry_path@, '/');
                match spec_rfind_char(entry_path@, '/') {
                    Some(k) => {
                        assert(chars@[k] == '/');
                        assert(false);
                    },
                    None => {},
                }
            }
            sub_chars(&chars, 0, n)
        },
    };
    proof {
        assert(chars@.subrange(0, n as int) =~= chars@);
        assert(seg@ == spec_last_segment(entry_path@));
    }
    let stem: Vec<char> = match rfind_char(&seg, '.') {
        Some(i) => {
            proof {
                lemma_rfind_char_spec(seg@, '.');
                match spec_rfind_char(seg@, '.') {
                    Some(k) => {
                        if k > i {
                            assert(seg@[k] == '.');
                            assert(false);
                        }
                        if k < i {
                            assert(seg@[i as int] != '.');
                            assert(false);
                        }
                    },
                    None => {
                        assert(seg@[i as int] != '.');
                        assert(false);
                    },
                }
            }
            if i > 0 {
                sub_chars(&seg, 0, i)
            } else {
                let sn = seg.len();
                sub_chars(&seg, 0, sn)
            }
        },
        None => {
            proof {
                lemma_rfind_char_spec(seg@, '.');
                match spec_rfind_char(seg@, '.') {
                    Some(k) => {
                        assert(seg@[k] == '.');
                        assert(false);
                    },
                    None => {},
                }
            }
            let sn = seg.len();
            sub_chars(&seg, 0, sn)
        },
    };
    proof {
        assert(seg@.subrange(0, seg@.len() as int) =~= seg@);
        assert(stem@ == spec_file_stem(entry_path@));
    }
    let stem_str = string_from_chars(&stem);
    format_export_name(stem_str.as_str())
}

/// What can go wrong while planning or applying an install.
#[derive(Debug)]
pub enum AddError {
    MissingConfig(String),
    ComponentNotFound(String),
    Registry(RegistryError),
    Io(String, String),
    Other(String),
}

/// `views` holds `s`.
pub open spec fn spec_contains_str(views: Seq<Seq<char>>, s: Seq<char>) -> bool {
    exists|i: int| 0 <= i < views.len() && views[i] == s
}

/// The views of a vector of strings.
pub open spec fn str_views(v: Seq<String>) -> Seq<Seq<char>> {
    v.map_values(|x: String| x@)
}

/// Whether some element of `v` reads `s`.
fn contains_str(v: &Vec<String>, s: &str) -> (r: bool)
    ensures
        r == spec_contains_str(str_views(v@), s@),
{
    let sc = chars_of(s);
    let n = v.len();
    let mut i: usize = 0;
    while i < n
        invariant
            n == v@.len(),
            i <= n,
            sc@ == s@,
            forall|j: int| 0 <= j < i ==> str_views(v@)[j] != s@,
        decreases n - i,
    {
        let vc = chars_of(v[i].as_str());
        if chars_eq(&vc, &sc) {
            proof {
                assert(str_views(v@)[i as int] == s@);
            }
            return true;
        }
        i = i + 1;
    }
    false
}

/// A present key is one of the association's keys.
proof fn lemma_assoc_get_some_key<V>(s: Seq<(Seq<char>, V)>, k: Seq<char>)
    requires
        spec_assoc_get(s, k) is Some,
    ensures
        exists|i: int| 0 <= i < s.len() && (#[trigger] s[i]).0 == k,
    decreases s.len(),
{
    if s.len() > 0 && s[0].0 != k {
        lemma_assoc_get_some_key(s.drop_first(), k);
        let i = choose|i: int| 0 <= i < s.drop_first().len() && (#[trigger] s.drop_first()[i]).0
            == k;
        assert(s[i + 1].0 == k);
    }
}

/// Distinct names that all key into an association are no more numerous
/// than its entries.
proof fn lemma_unique_keys_bound<V>(names: Seq<Seq<char>>, assoc: Seq<(Seq<char>, V)>)
    requires
        forall|i: int, j: int| 0 <= i < j < names.len() ==> names[i] != names[j],
        forall|i: int| 0 <= i < names.len() ==> spec_assoc_get(assoc, #[trigger] names[i]) is Some,
    ensures
        names.len() <= assoc.len(),
{
    broadcast use vstd::set_lib::group_set_lib_default;
    broadcast use vstd::set::group_set_axioms;

    let keys = assoc.map_values(|e: (Seq<char>, V)| e.0);
    assert(names.no_duplicates());
    names.unique_seq_to_set();
    assert forall|i: int| 0 <= i < names.len() implies keys.to_set().contains(
        #[trigger] names[i],
    ) by {
        lemma_assoc_get_some_key(assoc, names[i]);
        let j = choose|j: int| 0 <= j < assoc.len() && (#[trigger] assoc[j]).0 == names[i];
        assert(keys[j] == names[i]);
        assert(keys.to_set().contains(keys[j]));
    }
    assert(names.to_set().subset_of(keys.to_set()));
    keys.lemma_cardinality_of_set();
    vstd::seq_lib::seq_to_set_is_finite(keys);
    vstd::set_lib::lemma_len_subset(names.to_set(), keys.to_set());
}

/// String views distribute over push and drop_last.
proof fn lemma_views_push(q: Seq<String>, x: String)
    ensures
        str_views(q.push(x)) == str_views(q).push(x@),
{
    assert(str_views(q.push(x)) =~= str_views(q).push(x@));
}

proof fn lemma_views_drop_last(q: Seq<String>)
    requires
        q.len() > 0,
    ensures
        str_views(q.drop_last()) == str_views(q).drop_last(),
{
    assert(str_views(q.drop_last()) =~= str_views(q).drop_last());
}

/// A present key owns a whole entry of the association.
proof fn lemma_assoc_get_some_entry<V>(s: Seq<(Seq<char>, V)>, k: Seq<char>)
    requires
        spec_assoc_get(s, k) is Some,
    ensures
        exists|i: int|
            0 <= i < s.len() && (#[trigger] s[i]).0 == k && s[i].1 == spec_assoc_get(
                s,
                k,
            ).unwrap(),
    decreases s.len(),
{
    if s.len() > 0 && s[0].0 != k {
        lemma_assoc_get_some_entry(s.drop_first(), k);
        let i = choose|i: int|
            0 <= i < s.drop_first().len() && (#[trigger] s.drop_first()[i]).0 == k
                && s.drop_first()[i].1 == spec_assoc_get(s.drop_first(), k).unwrap();
        assert(s[i + 1].0 == k && s[i + 1].1 == spec_assoc_get(s, k).unwrap());
    }
}

/// The invariant tying the resolver's seen list and queue to the catalog.
pub open spec fn resolver_inv(
    catalog: Seq<(Seq<char>, ComponentRecord)>,
    rv: Seq<Seq<char>>,
    sv: Seq<Seq<char>>,
    qv: Seq<Seq<char>>,
) -> bool {
    // seen is duplicate-free and entirely in the catalog
    &&& forall|i: int, j: int| 0 <= i < j < sv.len() ==> sv[i] != sv[j]
    &&& forall|i: int| 0 <= i < sv.len() ==> spec_assoc_get(catalog, #[trigger] sv[i]) is Some
    // dependencies of seen slugs are seen or still queued
    &&& forall|i: int, d: int|
        0 <= i < sv.len() && 0 <= d < spec_assoc_get(
            catalog,
            #[trigger] sv[i],
        ).unwrap().internal_dependencies@.len() ==> spec_contains_str(
            sv,
            (#[trigger] spec_assoc_get(catalog, sv[i]).unwrap().internal_dependencies@[d])@,
        ) || spec_contains_str(
            qv,
            spec_assoc_get(catalog, sv[i]).unwrap().internal_dependencies@[d]@,
        )
    // every requested slug is seen or queued
    &&& forall|i: int|
        0 <= i < rv.len() ==> spec_contains_str(sv, #[trigger] rv[i]) || spec_contains_str(
            qv,
            rv[i],
        )
    // queued slugs are requested or referenced by the catalog
    &&& forall|q: int|
        0 <= q < qv.len() ==> spec_contains_str(rv, #[trigger] qv[q]) || referenced_by_catalog(
            catalog,
            qv[q],
        )
}

/// Some catalog component declares `s` as an internal dependency.
pub open spec fn referenced_by_catalog(
    catalog: Seq<(Seq<char>, ComponentRecord)>,
    s: Seq<char>,
) -> bool {
    exists|i: int, d: int|
        0 <= i < catalog.len() && 0 <= d < (
        #[trigger] catalog[i]).1.internal_dependencies@.len() && (
        #[trigger] catalog[i].1.internal_dependencies@[d])@ == s
}

/// Computes the install order: the dependency closure of the requested
/// slugs, in discovery order, each slug at most once.  Fails with
/// `ComponentNotFound` when a slug anywhere in the closure is absent from
/// the catalog.
pub fn resolve_install_order(requested: &Vec<String>, registry: &Registry) -> (r: Result<
    Vec<String>,
    AddError,
>)
    requires
        registry.wf(),
    ensures
        match r {
            Ok(order) => {
                let ov = str_views(order@);
                let catalog = components_assoc(registry.components@);
                // every requested slug is in the order
                &&& forall|i: int|
                    0 <= i < requested@.len() ==> spec_contains_str(
                        ov,
                        (#[trigger] requested@[i])@,
                    )
                // no slug appears twice
                &&& forall|i: int, j: int| 0 <= i < j < ov.len() ==> ov[i] != ov[j]
                // every slug in the order is in the catalog
                &&& forall|i: int|
                    0 <= i < ov.len() ==> spec_assoc_get(catalog, #[trigger] ov[i]) is Some
                // and its internal dependencies are all in the order
                &&& forall|i: int, d: int|
                    0 <= i < ov.len() && 0 <= d < spec_assoc_get(
                        catalog,
                        #[trigger] ov[i],
                    ).unwrap().internal_dependencies@.len() ==> spec_contains_str(
                        ov,
                        (#[trigger] spec_assoc_get(
                            catalog,
                            ov[i],
                        ).unwrap().internal_dependencies@[d])@,
                    )
            },
            Err(e) => {
                let catalog = components_assoc(registry.components@);
                &&& e matches AddError::ComponentNotFound(s)
                &&& (e matches AddError::ComponentNotFound(s) ==> spec_assoc_get(catalog, s@)
                    is None && (spec_contains_str(str_views(requested@), s@)
                    || referenced_by_catalog(catalog, s@)))
            },
        },
        (exists|i: int|
            0 <= i < requested@.len() && spec_assoc_get(
                components_assoc(registry.components@),
                (#[trigger] requested@[i])@,
            ) is None) ==> r is Err,
{
    let ghost catalog = components_assoc(registry.components@);
    let ghost rv = str_views(requested@);
    let catalog_len = registry.components.len();
    let mut seen: Vec<String> = Vec::new();
    let mut queue: Vec<String> = crate::text::clone_strings(requested);
    proof {
        assert(str_views(queue@) =~= rv);
        assert(forall|i: int| 0 <= i < rv.len() ==> spec_contains_str(str_views(queue@), #[trigger] rv[i]));
    }
    while queue.len() != 0
        invariant
            registry.wf(),
            catalog == components_assoc(registry.components@),
            catalog_len == catalog.len(),
            rv == str_views(requested@),
            resolver_inv(catalog, rv, str_views(seen@), str_views(queue@)),
        decreases catalog.len() - str_views(seen@).len(), queue@.len(),
    {
        proof {
            lemma_unique_keys_bound(str_views(seen@), catalog);
        }
        let ghost q0 = queue@;
        let slug = match queue.pop() {
            Some(s) => s,
            None => {
                // the loop condition guarantees a non-empty queue
                proof {
                    assert(false);
                }
                vstd::pervasive::unreached()
            },
        };
        proof {
            lemma_views_drop_last(q0);
            assert(slug@ == str_views(q0).last());
            assert(spec_contains_str(str_views(q0), slug@)) by {
                assert(str_views(q0)[str_views(q0).len() - 1] == slug@);
            }
        }
        let found = registry.find_component(slug.as_str());
        let in_catalog = match found {
            Some(_) => true,
            None => false,
        };
        if !in_catalog {
            proof {
                // the popped slug is requested or referenced, and missing
                assert(spec_assoc_get(catalog, slug@) is None);
            }
            return Err(AddError::ComponentNotFound(slug));
        }
        let already = contains_str(&seen, slug.as_str());
        if !already {
            let record = match registry.find_component(slug.as_str()) {
                Some(rec) => rec,
                None => {
                    // the slug was just found in the catalog
                    proof {
                        assert(false);
                    }
                    vstd::pervasive::unreached()
                },
            };
            let ghost slugv = slug@;
            let ghost s0 = seen@;
            seen.push(slug);
            proof {
                assert(seen@ == s0.push(seen@.last()));
                lemma_views_push(s0, seen@.last());
                assert((seen@.last())@ == slugv);
                assert(str_views(seen@) == str_views(s0).push(slugv));
                assert(spec_contains_str(str_views(seen@), slugv)) by {
                    assert(str_views(seen@).last() == slugv);
                }
                // old members keep their membership facts
                assert forall|x: Seq<char>|
                    spec_contains_str(str_views(s0), x) implies spec_contains_str(
                    str_views(seen@),
                    x,
                ) by {
                    let i = choose|i: int|
                        0 <= i < str_views(s0).len() && str_views(s0)[i] == x;
                    assert(str_views(seen@)[i] == x);
                }
                // the popped entry's queue witnesses move to the shorter queue
                // or to the freshly seen slug
                lemma_contains_after_pop(str_views(q0), str_views(queue@), slugv);
            }
            let dn = record.internal_dependencies.len();
            let mut d: usize = 0;
            while d < dn
                invariant
                    registry.wf(),
                    catalog == components_assoc(registry.components@),
                    catalog_len == catalog.len(),
                    rv == str_views(requested@),
                    dn == record.internal_dependencies@.len(),
                    d <= dn,
                    spec_assoc_get(catalog, slugv) == Some(*record),
                    str_views(seen@).len() > 0 && str_views(seen@).last() == slugv,
                    resolver_partial(catalog, rv, str_views(seen@), str_views(queue@)),
                    forall|e: int|
                        0 <= e < d ==> spec_contains_str(
                            str_views(seen@),
                            (#[trigger] record.internal_dependencies@[e])@,
                        ) || spec_contains_str(
                            str_views(queue@),
                            record.internal_dependencies@[e]@,
                        ),
                decreases dn - d,
            {
                let dep = &record.internal_dependencies[d];
                let dep_seen = contains_str(&seen, dep.as_str());
                if !dep_seen {
                    let ghost qb = queue@;
                    queue.push(dep.clone());
                    proof {
                        assert(queue@ == qb.push(queue@.last()));
                        lemma_views_push(qb, queue@.last());
                        assert((queue@.last())@ == record.internal_dependencies@[d as int]@);
                        assert(str_views(queue@) == str_views(qb).push(
                            record.internal_dependencies@[d as int]@,
                        ));
                        assert(spec_contains_str(
                            str_views(queue@),
                            record.internal_dependencies@[d as int]@,
                        )) by {
                            assert(str_views(queue@).last()
                                == record.internal_dependencies@[d as int]@);
                        }
                        assert forall|x: Seq<char>|
                            spec_contains_str(str_views(qb), x) implies spec_contains_str(
                            str_views(queue@),
                            x,
                        ) by {
                            let i = choose|i: int|
                                0 <= i < str_views(qb).len() && str_views(qb)[i] == x;
                            assert(str_views(queue@)[i] == x);
                        }
                        // provenance of the pushed dependency
                        lemma_assoc_get_some_entry(catalog, slugv);
                        assert(referenced_by_catalog(
                            catalog,
                            record.internal_dependencies@[d as int]@,
                        )) by {
                            let i = choose|i: int|
                                0 <= i < catalog.len() && (#[trigger] catalog[i]).0 == slugv
                                    && catalog[i].1 == *record;
                            assert(catalog[i].1.internal_dependencies@[d as int]@
                                == record.internal_dependencies@[d as int]@);
                        }
                    }
                }
                d = d + 1;
            }
            proof {
                // the new last seen slug's dependencies are all covered
                assert(resolver_inv(catalog, rv, str_views(seen@), str_views(queue@))) by {
                    let sv = str_views(seen@);
                    let qv = str_views(queue@);
                    assert forall|i: int, dd: int|
                        0 <= i < sv.len() && 0 <= dd < spec_assoc_get(
                            catalog,
                            #[trigger] sv[i],
                        ).unwrap().internal_dependencies@.len() implies spec_contains_str(
                        sv,
                        (#[trigger] spec_assoc_get(
                            catalog,
                            sv[i],
                        ).unwrap().internal_dependencies@[dd])@,
                    ) || spec_contains_str(
                        qv,
                        spec_assoc_get(catalog, sv[i]).unwrap().internal_dependencies@[dd]@,
                    ) by {
                        if i == sv.len() - 1 {
                            assert(sv[i] == slugv);
                            assert(spec_assoc_get(catalog, sv[i]).unwrap() == *record);
                        }
                    }
                }
            }
        } else {
            proof {
                // nothing new was learned; witnesses that pointed at the
                // popped entry now point into seen
                lemma_contains_after_pop(str_views(q0), str_views(queue@), slug@);
                assert(spec_contains_str(str_views(seen@), slug@));
            }
        }
        proof {
            lemma_unique_keys_bound(str_views(seen@), catalog);
        }
    }
    proof {
        assert(str_views(queue@).len() == 0);
        assert(forall|x: Seq<char>| !spec_contains_str(str_views(queue@), x));
        let sv = str_views(seen@);
        assert(forall|i: int|
            0 <= i < requested@.len() ==> rv[i] == (#[trigger] requested@[i])@);
        assert forall|i: int|
            0 <= i < requested@.len() implies spec_assoc_get(
            catalog,
            (#[trigger] requested@[i])@,
        ) is Some by {
            assert(spec_contains_str(sv, rv[i]));
            let j = choose|j: int| 0 <= j < sv.len() && sv[j] == rv[i];
            assert(spec_assoc_get(catalog, sv[j]) is Some);
        }
    }
    Ok(seen)
}

/// Everything the resolver's invariant says except the closure clause for
/// the last seen slug, which the dependency loop is still establishing.
pub open spec fn resolver_partial(
    catalog: Seq<(Seq<char>, ComponentRecord)>,
    rv: Seq<Seq<char>>,
    sv: Seq<Seq<char>>,
    qv: Seq<Seq<char>>,
) -> bool {
    &&& forall|i: int, j: int| 0 <= i < j < sv.len() ==> sv[i] != sv[j]
    &&& forall|i: int| 0 <= i < sv.len() ==> spec_assoc_get(catalog, #[trigger] sv[i]) is Some
    &&& forall|i: int, d: int|
        0 <= i < sv.len() - 1 && 0 <= d < spec_assoc_get(
            catalog,
            #[trigger] sv[i],
        ).unwrap().internal_dependencies@.len() ==> spec_contains_str(
            sv,
            (#[trigger] spec_assoc_get(catalog, sv[i]).unwrap().internal_dependencies@[d])@,
        ) || spec_contains_str(
            qv,
            spec_assoc_get(catalog, sv[i]).unwrap().internal_dependencies@[d]@,
        )
    &&& forall|i: int|
        0 <= i < rv.len() ==> spec_contains_str(sv, #[trigger] rv[i]) || spec_contains_str(
            qv,
            rv[i],
        )
    &&& forall|q: int|
        0 <= q < qv.len() ==> spec_contains_str(rv, #[trigger] qv[q]) || referenced_by_catalog(
            catalog,
            qv[q],
        )
}

/// A member of the popped queue is a member of the shorter queue, unless
/// it was the popped element itself.
proof fn lemma_contains_after_pop(q0: Seq<Seq<char>>, q1: Seq<Seq<char>>, popped: Seq<char>)
    requires
        q0.len() > 0,
        q1 == q0.drop_last(),
        popped == q0.last(),
    ensures
        forall|x: Seq<char>|
            spec_contains_str(q0, x) ==> spec_contains_str(q1, x) || x == popped,
{
    assert forall|x: Seq<char>|
        spec_contains_str(q0, x) implies spec_contains_str(q1, x) || x == popped by {
        let i = choose|i: int| 0 <= i < q0.len() && q0[i] == x;
        if i < q0.len() - 1 {
            assert(q1[i] == x);
        }
    }
}

/// The values of a sequence of planned files.
pub open spec fn pf_views(s: Seq<PlannedFile>) -> Seq<PlannedFileV> {
    s.map_values(|p: PlannedFile| p@)
}

/// Why fetching a component file can fail.
pub enum FetchFailure {
    Missing(Seq<char>),
    Undecodable(Seq<char>),
}

/// What fetching a registry path from the manifest yields.
pub open spec fn spec_fetch_outcome(
    manifest: Seq<(Seq<char>, Seq<char>)>,
    path: Seq<char>,
) -> Result<Seq<u8>, FetchFailure> {
    match spec_assoc_get(manifest, path) {
        None => Err(FetchFailure::Missing(path)),
        Some(enc) => match crate::registry::b64_decode_of(enc) {
            Some(b) => Ok(b),
            None => Err(FetchFailure::Undecodable(path)),
        },
    }
}

/// The first file of the list whose fetch fails, if any.
pub open spec fn spec_first_fetch_error(
    manifest: Seq<(Seq<char>, Seq<char>)>,
    files: Seq<ComponentFileRecord>,
) -> Option<FetchFailure>
    decreases files.len(),
{
    if files.len() == 0 {
        None
    } else {
        match spec_fetch_outcome(manifest, files[0].path@) {
            Err(f) => Some(f),
            Ok(_) => spec_first_fetch_error(manifest, files.drop_first()),
        }
    }
}

/// The planned file for one catalog file record, assuming its fetch
/// succeeds: destination resolved, content classified against the disk
/// snapshot, marked to apply.
pub open spec fn spec_planned_file(
    root: Seq<char>,
    config: Config,
    name: Seq<char>,
    file: ComponentFileRecord,
    manifest: Seq<(Seq<char>, Seq<char>)>,
    disk: Seq<(Seq<char>, Seq<u8>)>,
) -> PlannedFileV {
    let dest = spec_resolve_destination(root, config, file);
    let bytes = spec_fetch_outcome(manifest, file.path@)->Ok_0;
    let existing = spec_assoc_get(disk, dest);
    PlannedFileV {
        component_name: name,
        registry_path: file.path@,
        destination: dest,
        contents: bytes,
        existing_contents: existing,
        status: match existing {
            None => PlannedFileStatus::Create,
            Some(cur) => if cur == bytes {
                PlannedFileStatus::Unchanged
            } else {
                PlannedFileStatus::Update
            },
        },
        apply: true,
    }
}

/// The planned files of one component, in catalog file order.
pub open spec fn spec_component_planned(
    root: Seq<char>,
    config: Config,
    rec: ComponentRecord,
    manifest: Seq<(Seq<char>, Seq<char>)>,
    disk: Seq<(Seq<char>, Seq<u8>)>,
) -> Seq<PlannedFileV> {
    rec.files@.map_values(
        |f: ComponentFileRecord| spec_planned_file(root, config, rec.name@, f, manifest, disk),
    )
}

/// Plans the files of one component: each file is fetched from the
/// manifest, its destination resolved, and its status classified against
/// the disk snapshot; the first fetch failure aborts with the matching
/// registry error.
fn plan_component_files(
    workspace_root: &str,
    config: &Config,
    record: &ComponentRecord,
    manifest: &StrMap,
    disk: &DiskSnapshot,
    out: &mut Vec<PlannedFile>,
) -> (r: Result<(), AddError>)
    requires
        manifest.wf(),
        disk.wf(),
    ensures
        match r {
            Ok(()) => spec_first_fetch_error(manifest@, record.files@) is None && pf_views(final(out)@) == pf_views(old(out)@)
                + spec_component_planned(workspace_root@, *config, *record, manifest@, disk@),
            Err(e) => {
                &&& pf_views(final(out)@) == pf_views(old(out)@)
                &&& match spec_first_fetch_error(manifest@, record.files@) {
                    Some(FetchFailure::Missing(p)) => e matches AddError::Registry(
                        RegistryError::AssetNotFound(q),
                    ) && q@ == p,
                    Some(FetchFailure::Undecodable(p)) => e matches AddError::Registry(
                        RegistryError::Decode(q, _),
                    ) && q@ == p,
                    None => false,
                }
            },
        },
{
    let n = record.files.len();
    let mut staged: Vec<PlannedFile> = Vec::new();
    let mut i: usize = 0;
    let ghost planned = spec_component_planned(workspace_root@, *config, *record, manifest@,
        disk@);
    proof {
        assert(record.files@.subrange(0, 0).len() == 0);
        assert(pf_views(staged@) =~= planned.subrange(0, 0));
        assert(record.files@.skip(0) =~= record.files@);
    }
    while i < n
        invariant
            manifest.wf(),
            disk.wf(),
            n == record.files@.len(),
            i <= n,
            planned == spec_component_planned(workspace_root@, *config, *record, manifest@,
                disk@),
            planned.len() == n,
            pf_views(staged@) == planned.subrange(0, i as int),
            spec_first_fetch_error(manifest@, record.files@.skip(i as int))
                == spec_first_fetch_error(manifest@, record.files@),
            forall|j: int|
                0 <= j < i ==> spec_fetch_outcome(
                    manifest@,
                    (#[trigger] record.files@[j]).path@,
                ) is Ok,
        decreases n - i,
    {
        let file = &record.files[i];
        proof {
            assert(record.files@.skip(i as int)[0] == record.files@[i as int]);
            assert(record.files@.skip(i as int).drop_first() =~= record.files@.skip(i + 1));
        }
        let contents = match crate::registry::fetch_component_file(manifest, file.path.as_str()) {
            Ok(b) => b,
            Err(e) => {
                return Err(AddError::Registry(e));
            },
        };
        let destination = resolve_component_destination(workspace_root, config, file);
        let existing_contents: Option<Vec<u8>> = match disk.get(destination.as_str()) {
            Some(b) => Some(crate::text::clone_bytes(b)),
            None => None,
        };
        let status = match &existing_contents {
            None => PlannedFileStatus::Create,
            Some(current) => {
                if crate::text::bytes_eq(current, &contents) {
                    PlannedFileStatus::Unchanged
                } else {
                    PlannedFileStatus::Update
                }
            },
        };
        let pf = PlannedFile {
            component_name: record.name.clone(),
            registry_path: file.path.clone(),
            destination,
            contents,
            existing_contents,
            status,
            apply: true,
        };
        proof {
            assert(planned[i as int] == spec_planned_file(workspace_root@, *config,
                record.name@, record.files@[i as int], manifest@, disk@));
            assert(pf@ =~= planned[i as int]);
        }
        let ghost st0 = staged@;
        staged.push(pf);
        proof {
            assert(pf_views(st0) == planned.subrange(0, i as int));
            assert(pf_views(st0).len() == st0.len());
            assert(st0.len() == i);
            assert(staged@ == st0.push(staged@.last()));
            assert((staged@.last())@ == planned[i as int]);
            assert forall|j: int|
                0 <= j < staged@.len() implies pf_views(staged@)[j]
                == #[trigger] planned.subrange(0, i + 1 as int)[j] by {
                assert(pf_views(staged@)[j] == staged@[j]@);
                if j < i {
                    assert(staged@[j] == st0[j]);
                    assert(pf_views(st0)[j] == st0[j]@);
                    assert(pf_views(st0)[j] == planned.subrange(
                        0,
                        i as int,
                    )[j]);
                }
            }
            assert(pf_views(staged@) =~= planned.subrange(0, i + 1 as int));
        }
        i = i + 1;
    }
    proof {
        assert(record.files@.skip(n as int).len() == 0);
        assert(planned.subrange(0, n as int) =~= planned);
    }
    let ghost out0 = out@;
    let mut k: usize = 0;
    let sn = staged.len();
    while k < sn
        invariant
            sn == staged@.len(),
            k <= sn,
            pf_views(out@) == pf_views(out0)
                + pf_views(staged@).subrange(0, k as int),
            pf_views(staged@) == planned,
        decreases sn - k,
    {
        let pf = clone_planned_file(&staged[k]);
        proof {
            assert(pf_views(staged@)[k as int] == staged@[k as int]@);
            assert(pf@ == pf_views(staged@)[k as int]);
        }
        let ghost o0 = out@;
        out.push(pf);
        proof {
            assert(out@ == o0.push(out@.last()));
            assert(pf_views(o0).len() == o0.len());
            assert(pf_views(out0).len() == out0.len());
            assert(o0.len() == out0.len() + k);
            assert(pf_views(staged@).len() == staged@.len());
            assert(pf_views(staged@)[k as int] == planned[k as int]);
            assert((out@.last())@ == planned[k as int]);
            let target = pf_views(out0) + pf_views(staged@).subrange(0, k + 1 as int);
            assert forall|j: int|
                0 <= j < out@.len() implies pf_views(out@)[j]
                == #[trigger] target[j] by {
                assert(pf_views(out@)[j] == out@[j]@);
                if j < o0.len() {
                    assert(out@[j] == o0[j]);
                    assert(pf_views(o0)[j] == o0[j]@);
                    assert(pf_views(o0)[j] == (pf_views(out0) + pf_views(staged@).subrange(0, k as int))[j]);
                } else {
                    assert(pf_views(staged@).subrange(0, k + 1 as int)[
                        j - out0.len()] == pf_views(staged@)[k as int]);
                }
            }
            assert(pf_views(out@) =~= target);
        }
        k = k + 1;
    }
    proof {
        assert(pf_views(staged@).subrange(0, sn as int) =~= planned);
    }
    Ok(())
}

/// A field-for-field copy of a planned file with the same value.
fn clone_planned_file(pf: &PlannedFile) -> (r: PlannedFile)
    ensures
        r@ == pf@,
{
    PlannedFile {
        component_name: pf.component_name.clone(),
        registry_path: pf.registry_path.clone(),
        destination: pf.destination.clone(),
        contents: crate::text::clone_bytes(&pf.contents),
        existing_contents: match &pf.existing_contents {
            Some(b) => Some(crate::text::clone_bytes(b)),
            None => None,
        },
        status: pf.status,
        apply: pf.apply,
    }
}

/// Folding requirement entries into a running map, first entry first.
pub open spec fn spec_insert_entries(
    acc: Seq<(Seq<char>, Seq<char>)>,
    entries: Seq<(Seq<char>, Seq<char>)>,
) -> Seq<(Seq<char>, Seq<char>)>
    decreases entries.len(),
{
    if entries.len() == 0 {
        acc
    } else {
        spec_insert_entries(
            spec_assoc_insert(acc, entries[0].0, entries[0].1),
            entries.drop_first(),
        )
    }
}

/// Merges every entry of `deps` into `acc`, later writers winning.
fn merge_requirements(acc: &mut StrMap, deps: &StrMap)
    requires
        old(acc).wf(),
        deps.wf(),
    ensures
        final(acc).wf(),
        final(acc)@ == spec_insert_entries(old(acc)@, deps@),
{
    let n = deps.len();
    let mut i: usize = 0;
    proof {
        assert(deps@.skip(0) =~= deps@);
    }
    while i < n
        invariant
            acc.wf(),
            deps.wf(),
            n == deps@.len(),
            i <= n,
            spec_insert_entries(acc@, deps@.skip(i as int)) == spec_insert_entries(
                old(acc)@,
                deps@,
            ),
        decreases n - i,
    {
        proof {
            assert(deps@.skip(i as int)[0] == deps@[i as int]);
            assert(deps@.skip(i as int).drop_first() =~= deps@.skip(i + 1));
        }
        let name = deps.key_at(i).clone();
        let version = deps.val_at(i).clone();
        acc.insert(name, version);
        i = i + 1;
    }
    proof {
        assert(deps@.skip(n as int).len() == 0);
    }
}

/// The requirement maps of the components in install order, merged in
/// order with later components overriding earlier same-named entries.
pub open spec fn spec_plan_requirements(
    catalog: Seq<(Seq<char>, ComponentRecord)>,
    order: Seq<Seq<char>>,
    dev: bool,
) -> Seq<(Seq<char>, Seq<char>)>
    decreases order.len(),
{
    if order.len() == 0 {
        Seq::empty()
    } else {
        let prev = spec_plan_requirements(catalog, order.drop_last(), dev);
        let rec = spec_assoc_get(catalog, order.last()).unwrap();
        spec_insert_entries(
            prev,
            if dev {
                rec.dev_dependencies@
            } else {
                rec.dependencies@
            },
        )
    }
}

/// The destinations of the files the catalog marks as entries, in order.
pub open spec fn spec_entry_dests(
    root: Seq<char>,
    config: Config,
    files: Seq<ComponentFileRecord>,
) -> Seq<Seq<char>>
    decreases files.len(),
{
    if files.len() == 0 {
        Seq::empty()
    } else {
        spec_entry_dests(root, config, files.drop_last()) + (if spec_is_entry_file(
            files.last(),
        ) {
            seq![spec_resolve_destination(root, config, files.last())]
        } else {
            Seq::empty()
        })
    }
}

/// The destination of the first file with the component-language
/// extension, if any.
pub open spec fn spec_fallback_entry(
    root: Seq<char>,
    config: Config,
    files: Seq<ComponentFileRecord>,
) -> Option<Seq<char>>
    decreases files.len(),
{
    if files.len() == 0 {
        None
    } else {
        match spec_fallback_entry(root, config, files.drop_last()) {
            Some(d) => Some(d),
            None => if spec_is_svelte_file(files.last()) {
                Some(spec_resolve_destination(root, config, files.last()))
            } else {
                None
            },
        }
    }
}

/// The entry destinations a component contributes: its declared entries,
/// or the fallback entry when it declares none.
pub open spec fn spec_component_entries(
    root: Seq<char>,
    config: Config,
    files: Seq<ComponentFileRecord>,
) -> Seq<Seq<char>> {
    let dests = spec_entry_dests(root, config, files);
    if dests.len() > 0 {
        dests
    } else {
        match spec_fallback_entry(root, config, files) {
            Some(d) => seq![d],
            None => Seq::empty(),
        }
    }
}

/// The export pairs (identifier, entry destination) of one component.
pub open spec fn spec_component_export_pairs(
    root: Seq<char>,
    config: Config,
    slug: Seq<char>,
    files: Seq<ComponentFileRecord>,
) -> Seq<(Seq<char>, Seq<char>)> {
    let entries = spec_component_entries(root, config, files);
    Seq::new(entries.len(), |i: int| (spec_entry_export_name(slug, entries[i], i), entries[i]))
}

/// The type export pairs (names, entry destination) of one component's
/// files that declare type exports.
pub open spec fn spec_type_pairs(
    root: Seq<char>,
    config: Config,
    files: Seq<ComponentFileRecord>,
) -> Seq<(Seq<Seq<char>>, Seq<char>)>
    decreases files.len(),
{
    if files.len() == 0 {
        Seq::empty()
    } else {
        spec_type_pairs(root, config, files.drop_last()) + (if files.last().type_exports@.len()
            > 0 {
            seq![
                (
                    str_views(files.last().type_exports@),
                    spec_resolve_destination(root, config, files.last()),
                ),
            ]
        } else {
            Seq::empty()
        })
    }
}

/// The values of a sequence of component export specs.
pub open spec fn ces_views(s: Seq<ComponentExportSpec>) -> Seq<(Seq<char>, Seq<char>)> {
    s.map_values(|e: ComponentExportSpec| (e.export_name@, e.entry_path@))
}

/// The values of a sequence of type export specs.
pub open spec fn tes_views(s: Seq<TypeExportSpec>) -> Seq<(Seq<Seq<char>>, Seq<char>)> {
    s.map_values(|e: TypeExportSpec| (str_views(e.export_names@), e.entry_path@))
}

/// Collects one component's export pairs, type pairs, and missing-entry
/// marker into the running accumulators.
fn plan_component_exports(
    workspace_root: &str,
    config: &Config,
    slug: &str,
    record: &ComponentRecord,
    installed: &mut Vec<ComponentExportSpec>,
    types: &mut Vec<TypeExportSpec>,
    missing: &mut Vec<String>,
)
    ensures
        ces_views(final(installed)@) == ces_views(old(installed)@)
            + spec_component_export_pairs(workspace_root@, *config, slug@, record.files@),
        tes_views(final(types)@) == tes_views(old(types)@) + spec_type_pairs(
            workspace_root@,
            *config,
            record.files@,
        ),
        str_views(final(missing)@) == str_views(old(missing)@) + (if spec_component_entries(
            workspace_root@,
            *config,
            record.files@,
        ).len() == 0 {
            seq![record.name@]
        } else {
            Seq::<Seq<char>>::empty()
        }),
{
    let n = record.files.len();
    let mut entry_dests: Vec<String> = Vec::new();
    let mut fallback: Option<String> = None;
    let ghost t0 = types@;
    let mut i: usize = 0;
    proof {
        assert(record.files@.subrange(0, 0).len() == 0);
        assert(str_views(entry_dests@) =~= spec_entry_dests(workspace_root@, *config,
            record.files@.subrange(0, 0)));
        assert(tes_views(types@) =~= tes_views(t0) + spec_type_pairs(workspace_root@, *config,
            record.files@.subrange(0, 0)));
    }
    while i < n
        invariant
            n == record.files@.len(),
            i <= n,
            str_views(entry_dests@) == spec_entry_dests(
                workspace_root@,
                *config,
                record.files@.subrange(0, i as int),
            ),
            (match fallback {
                Some(d) => spec_fallback_entry(
                    workspace_root@,
                    *config,
                    record.files@.subrange(0, i as int),
                ) == Some(d@),
                None => spec_fallback_entry(
                    workspace_root@,
                    *config,
                    record.files@.subrange(0, i as int),
                ) is None,
            }),
            tes_views(types@) == tes_views(t0) + spec_type_pairs(
                workspace_root@,
                *config,
                record.files@.subrange(0, i as int),
            ),
        decreases n - i,
    {
        let file = &record.files[i];
        proof {
            assert(record.files@.subrange(0, i + 1 as int).drop_last() =~= record.files@
                .subrange(0, i as int));
            assert(record.files@.subrange(0, i + 1 as int).last() == record.files@[i as int]);
        }
        let destination = resolve_component_destination(workspace_root, config, file);
        if is_entry_file(file) {
            let ghost e0 = entry_dests@;
            entry_dests.push(destination.clone());
            proof {
                assert(entry_dests@ == e0.push(entry_dests@.last()));
                assert(str_views(entry_dests@) =~= str_views(e0).push(destination@));
                assert(str_views(entry_dests@) =~= spec_entry_dests(workspace_root@, *config,
                    record.files@.subrange(0, i + 1 as int)));
            }
        } else {
            proof {
                assert(str_views(entry_dests@) =~= spec_entry_dests(workspace_root@, *config,
                    record.files@.subrange(0, i + 1 as int)));
            }
        }
        let is_fb = match &fallback {
            Some(_) => false,
            None => is_svelte_file(file),
        };
        if is_fb {
            fallback = Some(destination.clone());
        }
        if file.type_exports.len() > 0 {
            let ghost ty0 = types@;
            let spec_entry = TypeExportSpec {
                export_names: crate::text::clone_strings(&file.type_exports),
                entry_path: destination,
            };
            proof {
                assert(str_views(spec_entry.export_names@) =~= str_views(
                    record.files@[i as int].type_exports@,
                ));
            }
            types.push(spec_entry);
            proof {
                assert(types@ == ty0.push(types@.last()));
                let p = (
                    str_views(record.files@[i as int].type_exports@),
                    spec_resolve_destination(workspace_root@, *config,
                    record.files@[i as int]),
                );
                assert((str_views(types@.last().export_names@), types@.last().entry_path@)
                    == p);
                assert(spec_type_pairs(workspace_root@, *config, record.files@.subrange(
                    0,
                    i + 1 as int,
                )) == spec_type_pairs(workspace_root@, *config, record.files@.subrange(
                    0,
                    i as int,
                )) + seq![p]);
                let tgt = tes_views(t0) + spec_type_pairs(workspace_root@, *config,
                    record.files@.subrange(0, i + 1 as int));
                assert(tes_views(ty0).len() == ty0.len());
                assert(tes_views(t0).len() == t0.len());
                assert(tes_views(types@).len() == types@.len());
                assert forall|j: int|
                    0 <= j < types@.len() implies tes_views(types@)[j] == #[trigger] tgt[j] by {
                    assert(tes_views(types@)[j] == (str_views(types@[j].export_names@),
                    types@[j].entry_path@));
                    if j < ty0.len() {
                        assert(types@[j] == ty0[j]);
                        assert(tes_views(ty0)[j] == (str_views(ty0[j].export_names@),
                        ty0[j].entry_path@));
                        assert(tes_views(ty0)[j] == (tes_views(t0) + spec_type_pairs(
                            workspace_root@,
                            *config,
                            record.files@.subrange(0, i as int),
                        ))[j]);
                        if j >= t0.len() {
                            assert(tgt[j] == spec_type_pairs(workspace_root@, *config,
                                record.files@.subrange(0, i + 1 as int))[j - t0.len()]);
                            assert(spec_type_pairs(workspace_root@, *config,
                                record.files@.subrange(0, i + 1 as int))[j - t0.len()]
                                == spec_type_pairs(workspace_root@, *config,
                                record.files@.subrange(0, i as int))[j - t0.len()]);
                        }
                    } else {
                        assert(j == ty0.len());
                        assert(types@[j] == types@.last());
                        assert(tgt[j] == p);
                    }
                }
                assert(tes_views(types@) =~= tgt);
            }
        } else {
            proof {
                assert(tes_views(types@) =~= tes_views(t0) + spec_type_pairs(workspace_root@,
                    *config, record.files@.subrange(0, i + 1 as int)));
            }
        }
        i = i + 1;
    }
    proof {
        assert(record.files@.subrange(0, n as int) =~= record.files@);
    }
    // choose the entry list
    let use_fallback = entry_dests.len() == 0;
    let entries: Vec<String> = if use_fallback {
        match fallback {
            Some(d) => {
                let mut v: Vec<String> = Vec::new();
                v.push(d);
                v
            },
            None => Vec::new(),
        }
    } else {
        entry_dests
    };
    proof {
        assert(str_views(entries@) =~= spec_component_entries(workspace_root@, *config,
            record.files@));
    }
    if entries.len() == 0 {
        let ghost m0 = missing@;
        missing.push(record.name.clone());
        proof {
            assert(missing@ == m0.push(missing@.last()));
            assert(str_views(missing@) =~= str_views(m0).push(record.name@));
        }
    }
    let ghost inst0 = installed@;
    let ghost pairs = spec_component_export_pairs(workspace_root@, *config, slug@,
        record.files@);
    let en = entries.len();
    let mut k: usize = 0;
    proof {
        assert(pairs.len() == en);
        assert(ces_views(installed@) =~= ces_views(inst0) + pairs.subrange(0, 0));
    }
    while k < en
        invariant
            en == entries@.len(),
            k <= en,
            pairs == spec_component_export_pairs(workspace_root@, *config, slug@,
                record.files@),
            pairs.len() == en,
            str_views(entries@) == spec_component_entries(workspace_root@, *config,
                record.files@),
            ces_views(installed@) == ces_views(inst0) + pairs.subrange(0, k as int),
        decreases en - k,
    {
        let name = entry_export_name(slug, entries[k].as_str(), k);
        let ghost i0 = installed@;
        installed.push(ComponentExportSpec { export_name: name, entry_path: entries[k].clone() });
        proof {
            assert(installed@ == i0.push(installed@.last()));
            assert((installed@.last()).export_name@ == spec_entry_export_name(slug@,
                str_views(entries@)[k as int], k as int));
            assert((installed@.last()).entry_path@ == str_views(entries@)[k as int]);
            assert(pairs[k as int] == (spec_entry_export_name(slug@,
                str_views(entries@)[k as int], k as int), str_views(entries@)[k as int]));
            let tgt = ces_views(inst0) + pairs.subrange(0, k + 1 as int);
            assert(ces_views(i0).len() == i0.len());
            assert(ces_views(inst0).len() == inst0.len());
            assert(ces_views(installed@).len() == installed@.len());
            assert forall|j: int|
                0 <= j < installed@.len() implies ces_views(installed@)[j] == #[trigger] tgt[j]
                by {
                assert(ces_views(installed@)[j] == (installed@[j].export_name@,
                installed@[j].entry_path@));
                if j < i0.len() {
                    assert(installed@[j] == i0[j]);
                    assert(ces_views(i0)[j] == (i0[j].export_name@, i0[j].entry_path@));
                    assert(ces_views(i0)[j] == (ces_views(inst0) + pairs.subrange(0, k as int))[
                    j]);
                    if j >= inst0.len() {
                        assert(tgt[j] == pairs.subrange(0, k + 1 as int)[j - inst0.len()]);
                        assert(pairs.subrange(0, k + 1 as int)[j - inst0.len()]
                            == pairs.subrange(0, k as int)[j - inst0.len()]);
                    }
                } else {
                    assert(j == i0.len());
                    assert(installed@[j] == installed@.last());
                    assert(tgt[j] == pairs[k as int]);
                }
            }
            assert(ces_views(installed@) =~= tgt);
        }
        k = k + 1;
    }
    proof {
        assert(pairs.subrange(0, en as int) =~= pairs);
    }
}

/// The planned files of the whole install order, in order.
pub open spec fn spec_plan_files(
    root: Seq<char>,
    config: Config,
    catalog: Seq<(Seq<char>, ComponentRecord)>,
    order: Seq<Seq<char>>,
    manifest: Seq<(Seq<char>, Seq<char>)>,
    disk: Seq<(Seq<char>, Seq<u8>)>,
) -> Seq<PlannedFileV>
    decreases order.len(),
{
    if order.len() == 0 {
        Seq::empty()
    } else {
        spec_plan_files(root, config, catalog, order.drop_last(), manifest, disk)
            + spec_component_planned(
            root,
            config,
            spec_assoc_get(catalog, order.last()).unwrap(),
            manifest,
            disk,
        )
    }
}

/// The export pairs contributed by the whole install order.
pub open spec fn spec_plan_exports(
    catalog: Seq<(Seq<char>, ComponentRecord)>,
    order: Seq<Seq<char>>,
    root: Seq<char>,
    config: Config,
) -> Seq<(Seq<char>, Seq<char>)>
    decreases order.len(),
{
    if order.len() == 0 {
        Seq::empty()
    } else {
        spec_plan_exports(catalog, order.drop_last(), root, config)
            + spec_component_export_pairs(
            root,
            config,
            order.last(),
            spec_assoc_get(catalog, order.last()).unwrap().files@,
        )
    }
}

/// The type export pairs contributed by the whole install order.
pub open spec fn spec_plan_type_exports(
    catalog: Seq<(Seq<char>, ComponentRecord)>,
    order: Seq<Seq<char>>,
    root: Seq<char>,
    config: Config,
) -> Seq<(Seq<Seq<char>>, Seq<char>)>
    decreases order.len(),
{
    if order.len() == 0 {
        Seq::empty()
    } else {
        spec_plan_type_exports(catalog, order.drop_last(), root, config) + spec_type_pairs(
            root,
            config,
            spec_assoc_get(catalog, order.last()).unwrap().files@,
        )
    }
}

/// The names of the components in order that contribute no entry file.
pub open spec fn spec_plan_missing(
    catalog: Seq<(Seq<char>, ComponentRecord)>,
    order: Seq<Seq<char>>,
    root: Seq<char>,
    config: Config,
) -> Seq<Seq<char>>
    decreases order.len(),
{
    if order.len() == 0 {
        Seq::empty()
    } else {
        let rec = spec_assoc_get(catalog, order.last()).unwrap();
        spec_plan_missing(catalog, order.drop_last(), root, config) + (
        if spec_component_entries(root, config, rec.files@).len() == 0 {
            seq![rec.name@]
        } else {
            Seq::<Seq<char>>::empty()
        })
    }
}

/// The error a failed plan carries matches a fetch failure of some
/// catalog component.
pub open spec fn fetch_error_matches(
    catalog: Seq<(Seq<char>, ComponentRecord)>,
    manifest: Seq<(Seq<char>, Seq<char>)>,
    e: AddError,
) -> bool {
    exists|s: Seq<char>|
        #[trigger] spec_assoc_get(catalog, s) is Some && match spec_first_fetch_error(
            manifest,
            spec_assoc_get(catalog, s).unwrap().files@,
        ) {
            Some(FetchFailure::Missing(p)) => e matches AddError::Registry(
                RegistryError::AssetNotFound(q),
            ) && q@ == p,
            Some(FetchFailure::Undecodable(p)) => e matches AddError::Registry(
                RegistryError::Decode(q, _),
            ) && q@ == p,
            None => false,
        }
}

/// The four closure properties of an install order.
pub open spec fn order_closed(
    catalog: Seq<(Seq<char>, ComponentRecord)>,
    requested: Seq<String>,
    ov: Seq<Seq<char>>,
) -> bool {
    &&& forall|i: int|
        0 <= i < requested.len() ==> spec_contains_str(ov, (#[trigger] requested[i])@)
    &&& forall|i: int, j: int| 0 <= i < j < ov.len() ==> ov[i] != ov[j]
    &&& forall|i: int| 0 <= i < ov.len() ==> spec_assoc_get(catalog, #[trigger] ov[i]) is Some
    &&& forall|i: int, d: int|
        0 <= i < ov.len() && 0 <= d < spec_assoc_get(
            catalog,
            #[trigger] ov[i],
        ).unwrap().internal_dependencies@.len() ==> spec_contains_str(
            ov,
            (#[trigger] spec_assoc_get(catalog, ov[i]).unwrap().internal_dependencies@[d])@,
        )
}

/// The complete, side-effect-free description of an install.
pub struct AddPlan {
    pub config: Config,
    pub workspace_root: String,
    pub requested_components: Vec<String>,
    pub install_order: Vec<String>,
    pub planned_files: Vec<PlannedFile>,
    pub installed_components: Vec<ComponentExportSpec>,
    pub registered_type_exports: Vec<TypeExportSpec>,
    pub runtime_requirements: StrMap,
    pub dev_requirements: StrMap,
    pub barrel_path: String,
    pub existing_barrel: String,
    pub package_manager: PackageManagerKind,
    pub package_snapshot: PackageSnapshot,
    pub missing_entry_components: Vec<String>,
}

/// Computes an install plan for the requested components: the dependency
/// closure in install order, every file of every ordered component fetched
/// and classified against the disk snapshot, the aggregated dependency
/// requirements, the export specs for the barrel, and the components
/// lacking an entry file.  Planning mutates nothing.
pub fn plan(
    config: &Config,
    workspace_root: &str,
    options: &AddOptions,
    registry: &Registry,
    file_manifest: &StrMap,
    disk: &DiskSnapshot,
    package_manager: PackageManagerKind,
    package_snapshot: PackageSnapshot,
    existing_barrel: String,
) -> (r: Result<AddPlan, AddError>)
    requires
        registry.wf(),
        file_manifest.wf(),
        disk.wf(),
        package_snapshot.wf(),
    ensures
        match r {
            Ok(p) => {
                let catalog = components_assoc(registry.components@);
                let ov = str_views(p.install_order@);
                &&& order_closed(catalog, options.components@, ov)
                &&& pf_views(p.planned_files@) == spec_plan_files(workspace_root@, *config,
                    catalog, ov, file_manifest@, disk@)
                &&& p.runtime_requirements.wf()
                &&& p.runtime_requirements@ == spec_plan_requirements(catalog, ov, false)
                &&& p.dev_requirements.wf()
                &&& p.dev_requirements@ == spec_plan_requirements(catalog, ov, true)
                &&& ces_views(p.installed_components@) == spec_plan_exports(catalog, ov,
                    workspace_root@, *config)
                &&& tes_views(p.registered_type_exports@) == spec_plan_type_exports(catalog,
                    ov, workspace_root@, *config)
                &&& str_views(p.missing_entry_components@) == spec_plan_missing(catalog, ov,
                    workspace_root@, *config)
                &&& p.barrel_path@ == spec_workspace_path(workspace_root@,
                    config.exports.components.barrel@)
                &&& p.existing_barrel == existing_barrel
                &&& p.package_manager == package_manager
                &&& p.package_snapshot == package_snapshot
                &&& p.package_snapshot.wf()
                &&& p.workspace_root@ == workspace_root@
                &&& p.config == *config
                &&& p.requested_components@ == options.components@
            },
            Err(e) => {
                let catalog = components_assoc(registry.components@);
                match e {
                    AddError::ComponentNotFound(s) => spec_assoc_get(catalog, s@) is None && (
                    spec_contains_str(str_views(options.components@), s@)
                        || referenced_by_catalog(catalog, s@)),
                    AddError::Registry(_) => fetch_error_matches(catalog, file_manifest@, e),
                    _ => false,
                }
            },
        },
        (exists|i: int|
            0 <= i < options.components@.len() && spec_assoc_get(
                components_assoc(registry.components@),
                (#[trigger] options.components@[i])@,
            ) is None) ==> r is Err,
{
    let ghost catalog = components_assoc(registry.components@);
    let order = match resolve_install_order(&options.components, registry) {
        Ok(o) => o,
        Err(e) => {
            return Err(e);
        },
    };
    let ghost ov = str_views(order@);
    let n = order.len();
    let mut planned: Vec<PlannedFile> = Vec::new();
    let mut i: usize = 0;
    proof {
        assert(ov.subrange(0, 0).len() == 0);
        assert(pf_views(planned@) =~= spec_plan_files(workspace_root@, *config, catalog,
            ov.subrange(0, 0), file_manifest@, disk@));
    }
    while i < n
        invariant
            registry.wf(),
            file_manifest.wf(),
            disk.wf(),
            catalog == components_assoc(registry.components@),
            ov == str_views(order@),
            n == order@.len(),
            i <= n,
            forall|j: int| 0 <= j < ov.len() ==> spec_assoc_get(catalog, #[trigger] ov[j]) is Some,
            pf_views(planned@) == spec_plan_files(workspace_root@, *config, catalog,
                ov.subrange(0, i as int), file_manifest@, disk@),
        decreases n - i,
    {
        proof {
            assert(ov[i as int] == order@[i as int]@);
            assert(ov.subrange(0, i + 1 as int).drop_last() =~= ov.subrange(0, i as int));
            assert(ov.subrange(0, i + 1 as int).last() == ov[i as int]);
        }
        let record = match registry.find_component(order[i].as_str()) {
            Some(rec) => rec,
            None => {
                // the resolver only returns catalog slugs
                proof {
                    assert(false);
                }
                vstd::pervasive::unreached()
            },
        };
        match plan_component_files(workspace_root, config, record, file_manifest, disk,
            &mut planned) {
            Ok(()) => {
                proof {
                    assert(spec_assoc_get(catalog, ov[i as int]).unwrap() == *record);
                    assert(pf_views(planned@) =~= spec_plan_files(workspace_root@, *config,
                        catalog, ov.subrange(0, i + 1 as int), file_manifest@, disk@));
                }
            },
            Err(e) => {
                proof {
                    assert(spec_assoc_get(catalog, ov[i as int]) is Some);
                    assert(fetch_error_matches(catalog, file_manifest@, e)) by {
                        assert(spec_assoc_get(catalog, ov[i as int]).unwrap() == *record);
                    }
                }
                return Err(e);
            },
        }
        i = i + 1;
    }
    proof {
        assert(ov.subrange(0, n as int) =~= ov);
    }
    // aggregate dependency requirements, later components overriding
    let mut runtime_requirements = StrMap::new();
    let mut dev_requirements = StrMap::new();
    let mut k: usize = 0;
    proof {
        assert(ov.subrange(0, 0).len() == 0);
    }
    while k < n
        invariant
            registry.wf(),
            catalog == components_assoc(registry.components@),
            ov == str_views(order@),
            n == order@.len(),
            k <= n,
            forall|j: int| 0 <= j < ov.len() ==> spec_assoc_get(catalog, #[trigger] ov[j]) is Some,
            runtime_requirements.wf(),
            dev_requirements.wf(),
            runtime_requirements@ == spec_plan_requirements(catalog, ov.subrange(0, k as int),
                false),
            dev_requirements@ == spec_plan_requirements(catalog, ov.subrange(0, k as int), true),
        decreases n - k,
    {
        proof {
            assert(ov[k as int] == order@[k as int]@);
            assert(ov.subrange(0, k + 1 as int).drop_last() =~= ov.subrange(0, k as int));
            assert(ov.subrange(0, k + 1 as int).last() == ov[k as int]);
        }
        let record = match registry.find_component(order[k].as_str()) {
            Some(rec) => rec,
            None => {
                // the resolver only returns catalog slugs
                proof {
                    assert(false);
                }
                vstd::pervasive::unreached()
            },
        };
        merge_requirements(&mut runtime_requirements, &record.dependencies);
        merge_requirements(&mut dev_requirements, &record.dev_dependencies);
        proof {
            assert(spec_assoc_get(catalog, ov[k as int]).unwrap() == *record);
        }
        k = k + 1;
    }
    proof {
        assert(ov.subrange(0, n as int) =~= ov);
    }
    // collect export specs and missing-entry components
    let mut installed_components: Vec<ComponentExportSpec> = Vec::new();
    let mut registered_type_exports: Vec<TypeExportSpec> = Vec::new();
    let mut missing_entry_components: Vec<String> = Vec::new();
    let mut m: usize = 0;
    proof {
        assert(ov.subrange(0, 0).len() == 0);
        assert(ces_views(installed_components@) =~= spec_plan_exports(catalog, ov.subrange(
            0,
            0,
        ), workspace_root@, *config));
        assert(tes_views(registered_type_exports@) =~= spec_plan_type_exports(catalog,
            ov.subrange(0, 0), workspace_root@, *config));
        assert(str_views(missing_entry_components@) =~= spec_plan_missing(catalog, ov.subrange(
            0,
            0,
        ), workspace_root@, *config));
    }
    while m < n
        invariant
            registry.wf(),
            catalog == components_assoc(registry.components@),
            ov == str_views(order@),
            n == order@.len(),
            m <= n,
            forall|j: int| 0 <= j < ov.len() ==> spec_assoc_get(catalog, #[trigger] ov[j]) is Some,
            ces_views(installed_components@) == spec_plan_exports(catalog, ov.subrange(
                0,
                m as int,
            ), workspace_root@, *config),
            tes_views(registered_type_exports@) == spec_plan_type_exports(catalog, ov.subrange(
                0,
                m as int,
            ), workspace_root@, *config),
            str_views(missing_entry_components@) == spec_plan_missing(catalog, ov.subrange(
                0,
                m as int,
            ), workspace_root@, *config),
        decreases n - m,
    {
        proof {
            assert(ov[m as int] == order@[m as int]@);
            assert(ov.subrange(0, m + 1 as int).drop_last() =~= ov.subrange(0, m as int));
            assert(ov.subrange(0, m + 1 as int).last() == ov[m as int]);
        }
        let record = match registry.find_component(order[m].as_str()) {
            Some(rec) => rec,
            None => {
                // the resolver only returns catalog slugs
                proof {
                    assert(false);
                }
                vstd::pervasive::unreached()
            },
        };
        plan_component_exports(workspace_root, config, order[m].as_str(), record,
            &mut installed_components, &mut registered_type_exports,
            &mut missing_entry_components);
        proof {
            assert(spec_assoc_get(catalog, ov[m as int]).unwrap() == *record);
        }
        m = m + 1;
    }
    proof {
        assert(ov.subrange(0, n as int) =~= ov);
    }
    let barrel_path = workspace_path(workspace_root, config.exports.components.barrel.as_str());
    Ok(
        AddPlan {
            config: clone_config(config),
            workspace_root: workspace_root.to_owned(),
            requested_components: crate::text::clone_strings(&options.components),
            install_order: order,
            planned_files: planned,
            installed_components,
            registered_type_exports,
            runtime_requirements,
            dev_requirements,
            barrel_path,
            existing_barrel,
            package_manager,
            package_snapshot,
            missing_entry_components,
        },
    )
}

/// A copy of the configuration equal to the original.
pub fn clone_config(c: &Config) -> (r: Config)
    ensures
        r == *c,
{
    Config {
        schema: crate::text::clone_opt_string(&c.schema),
        tailwind: crate::config::TailwindEntry { css: c.tailwind.css.clone() },
        aliases: crate::config::Aliases {
            components: crate::config::AliasEntry {
                filesystem: c.aliases.components.filesystem.clone(),
                import: c.aliases.components.import.clone(),
            },
            helpers: crate::config::AliasEntry {
                filesystem: c.aliases.helpers.filesystem.clone(),
                import: c.aliases.helpers.import.clone(),
            },
            utils: crate::config::AliasEntry {
                filesystem: c.aliases.utils.filesystem.clone(),
                import: c.aliases.utils.import.clone(),
            },
            assets: crate::config::AliasEntry {
                filesystem: c.aliases.assets.filesystem.clone(),
                import: c.aliases.assets.import.clone(),
            },
        },
        alias_prefixes: crate::config::AliasPrefixes {
            components: c.alias_prefixes.components.clone(),
        },
        exports: crate::config::Exports {
            components: crate::config::ExportEntry {
                barrel: c.exports.components.barrel.clone(),
                strategy: c.exports.components.strategy,
            },
        },
    }
}

/// Whether the apply step runs without touching the file system.
#[derive(Clone, Copy, PartialEq, Eq, Debug, Structural)]
pub struct ApplyOptions {
    pub dry_run: bool,
}

/// What applying did (or would do) to one planned file.
#[derive(Clone, Copy, PartialEq, Eq, Debug, Structural)]
pub enum FileStatus {
    Created,
    Updated,
    Unchanged,
    Skipped,
}

/// The apply-time report for one planned file, in plan order.
pub struct FileApplyReport {
    pub destination: String,
    pub component_name: String,
    pub status: FileStatus,
}

/// What the apply step decided about one dependency scope.
pub enum DependencyAction {
    AlreadyInstalled,
    Installed(Vec<String>),
    Manual(Vec<String>),
    DryRun(Vec<String>),
    Skipped(String),
}

/// The outcome of applying a plan: the per-file reports, whether (and to
/// what) the barrel changes, and the dependency actions for the runtime
/// and dev scopes.
pub struct ApplyOutcome {
    pub files: Vec<FileApplyReport>,
    pub exports_updated: bool,
    pub rendered_barrel: Option<String>,
    pub runtime: DependencyAction,
    pub dev: DependencyAction,
}

/// The status a planned file earns at apply time, re-deriving it against
/// the disk state seen then: skipped when not approved, created when the
/// destination is absent, unchanged when the bytes already agree, updated
/// otherwise.
pub open spec fn spec_apply_file_status(
    pf: PlannedFileV,
    disk: Seq<(Seq<char>, Seq<u8>)>,
) -> FileStatus {
    if !pf.apply {
        FileStatus::Skipped
    } else {
        match spec_assoc_get(disk, pf.destination) {
            None => FileStatus::Created,
            Some(cur) => if cur == pf.contents {
                FileStatus::Unchanged
            } else {
                FileStatus::Updated
            },
        }
    }
}

/// The `name@version` entries whose requirement the workspace snapshot
/// does not satisfy, in requirement-map order.
pub open spec fn spec_diff_deps(
    reqs: Seq<(Seq<char>, Seq<char>)>,
    snap: PackageSnapshot,
) -> Seq<Seq<char>>
    decreases reqs.len(),
{
    if reqs.len() == 0 {
        Seq::empty()
    } else {
        spec_diff_deps(reqs.drop_last(), snap) + (if !crate::versions::satisfies_model(
            spec_snapshot_lookup(snap, reqs.last().0),
            reqs.last().1,
        ) {
            seq![reqs.last().0 + seq!['@'] + reqs.last().1]
        } else {
            Seq::<Seq<char>>::empty()
        })
    }
}

/// The packages from `requirements` still to install: those whose
/// required specifier the snapshot does not satisfy, as `name@version`.
pub fn diff_dependencies(requirements: &StrMap, snapshot: &PackageSnapshot) -> (r: Vec<String>)
    requires
        requirements.wf(),
        snapshot.wf(),
    ensures
        str_views(r@) == spec_diff_deps(requirements@, *snapshot),
{
    let n = requirements.len();
    let mut out: Vec<String> = Vec::new();
    let mut i: usize = 0;
    proof {
        assert(requirements@.subrange(0, 0).len() == 0);
        assert(str_views(out@) =~= spec_diff_deps(requirements@.subrange(0, 0), *snapshot));
    }
    while i < n
        invariant
            requirements.wf(),
            snapshot.wf(),
            n == requirements@.len(),
            i <= n,
            str_views(out@) == spec_diff_deps(requirements@.subrange(0, i as int), *snapshot),
        decreases n - i,
    {
        proof {
            assert(requirements@.subrange(0, i + 1 as int).drop_last() =~= requirements@
                .subrange(0, i as int));
            assert(requirements@.subrange(0, i + 1 as int).last() == requirements@[i as int]);
        }
        let name = requirements.key_at(i);
        let version = requirements.val_at(i);
        let installed: Option<&str> = match snapshot.spec_of(name.as_str()) {
            Some(v) => Some(v.as_str()),
            None => None,
        };
        proof {
            assert(crate::versions::opt_str_view(installed) == spec_snapshot_lookup(*snapshot,
                requirements@[i as int].0));
        }
        if !crate::versions::spec_satisfies(installed, version.as_str()) {
            let mut entry = chars_of(name.as_str());
            entry.push('@');
            crate::text::push_str_chars(&mut entry, version.as_str());
            proof {
                assert(entry@ =~= requirements@[i as int].0 + seq!['@']
                    + requirements@[i as int].1);
            }
            let ghost o0 = out@;
            out.push(string_from_chars(&entry));
            proof {
                assert(out@ == o0.push(out@.last()));
                assert(str_views(out@) =~= str_views(o0).push((out@.last())@));
                assert(str_views(out@) =~= spec_diff_deps(requirements@.subrange(
                    0,
                    i + 1 as int,
                ), *snapshot));
            }
        } else {
            proof {
                assert(str_views(out@) =~= spec_diff_deps(requirements@.subrange(
                    0,
                    i + 1 as int,
                ), *snapshot));
            }
        }
        i = i + 1;
    }
    proof {
        assert(requirements@.subrange(0, n as int) =~= requirements@);
    }
    out
}

/// Decides what to do about one dependency scope: nothing when the
/// snapshot satisfies everything; a manual note when no package manager
/// was detected; a preview under dry-run; otherwise the packages to hand
/// to the package manager.
pub fn handle_dependencies(
    requirements: &StrMap,
    snapshot: &PackageSnapshot,
    package_manager: PackageManagerKind,
    dry_run: bool,
) -> (r: DependencyAction)
    requires
        requirements.wf(),
        snapshot.wf(),
    ensures
        ({
            let installs = spec_diff_deps(requirements@, *snapshot);
            if installs.len() == 0 {
                r is AlreadyInstalled
            } else if package_manager == PackageManagerKind::Unknown {
                r matches DependencyAction::Manual(v) && str_views(v@) == installs
            } else if dry_run {
                r matches DependencyAction::DryRun(v) && str_views(v@) == installs
            } else {
                r matches DependencyAction::Installed(v) && str_views(v@) == installs
            }
        }),
{
    let installs = diff_dependencies(requirements, snapshot);
    if installs.len() == 0 {
        proof {
            assert(str_views(installs@).len() == 0);
        }
        return DependencyAction::AlreadyInstalled;
    }
    if package_manager == PackageManagerKind::Unknown {
        return DependencyAction::Manual(installs);
    }
    if dry_run {
        return DependencyAction::DryRun(installs);
    }
    DependencyAction::Installed(installs)
}

impl ApplyOutcome {
    /// Whether some file changed, in any of the reported senses.
    pub open spec fn spec_any_file_changed(&self) -> bool {
        exists|i: int|
            0 <= i < self.files@.len() && ((#[trigger] self.files@[i]).status
                == FileStatus::Created || self.files@[i].status == FileStatus::Updated)
    }

    /// The command made changes exactly when it was not a dry run and a
    /// file was created or updated, the barrel changed, or a dependency
    /// scope was actually installed.
    pub fn has_changes(&self, dry_run: bool) -> (r: bool)
        ensures
            r == (!dry_run && (self.spec_any_file_changed() || self.exports_updated
                || self.runtime is Installed || self.dev is Installed)),
    {
        if dry_run {
            return false;
        }
        let mut any: bool = false;
        let n = self.files.len();
        let mut i: usize = 0;
        while i < n
            invariant
                n == self.files@.len(),
                i <= n,
                any == exists|j: int|
                    0 <= j < i && ((#[trigger] self.files@[j]).status == FileStatus::Created
                        || self.files@[j].status == FileStatus::Updated),
            decreases n - i,
        {
            let st = self.files[i].status;
            if st == FileStatus::Created || st == FileStatus::Updated {
                any = true;
                proof {
                    assert(self.files@[i as int].status == FileStatus::Created
                        || self.files@[i as int].status == FileStatus::Updated);
                }
            }
            i = i + 1;
        }
        let deps_installed = match self.runtime {
            DependencyAction::Installed(_) => true,
            _ => false,
        } || match self.dev {
            DependencyAction::Installed(_) => true,
            _ => false,
        };
        any || self.exports_updated || deps_installed
    }
}

/// Applies a plan against the disk state seen now: reports each planned
/// file's status (skipped files are left alone), renders the merged
/// barrel, and decides the dependency actions for both scopes.  The
/// writes themselves, and running the package manager, are the caller's
/// to perform; under dry-run nothing at all is to be written.
pub fn apply(plan: &AddPlan, disk: &DiskSnapshot, options: ApplyOptions) -> (r: ApplyOutcome)
    requires
        disk.wf(),
        plan.runtime_requirements.wf(),
        plan.dev_requirements.wf(),
        plan.package_snapshot.wf(),
    ensures
        r.files@.len() == plan.planned_files@.len(),
        forall|i: int|
            0 <= i < r.files@.len() ==> {
                let pf = pf_views(plan.planned_files@)[i];
                &&& (#[trigger] r.files@[i]).destination@ == pf.destination
                &&& r.files@[i].component_name@ == pf.component_name
                &&& r.files@[i].status == spec_apply_file_status(pf, disk@)
            },
        ({
            let rendered = crate::components::spec_render_component_barrel(
                plan.workspace_root@,
                plan.config,
                plan.installed_components@,
                plan.registered_type_exports@,
                plan.existing_barrel@,
            );
            match r.rendered_barrel {
                Some(text) => rendered == Some(text@) && r.exports_updated,
                None => rendered is None && !r.exports_updated,
            }
        }),
        ({
            let installs = spec_diff_deps(plan.runtime_requirements@, plan.package_snapshot);
            if installs.len() == 0 {
                r.runtime is AlreadyInstalled
            } else if plan.package_manager == PackageManagerKind::Unknown {
                r.runtime matches DependencyAction::Manual(v) && str_views(v@) == installs
            } else if options.dry_run {
                r.runtime matches DependencyAction::DryRun(v) && str_views(v@) == installs
            } else {
                r.runtime matches DependencyAction::Installed(v) && str_views(v@) == installs
            }
        }),
        ({
            let installs = spec_diff_deps(plan.dev_requirements@, plan.package_snapshot);
            if installs.len() == 0 {
                r.dev is AlreadyInstalled
            } else if plan.package_manager == PackageManagerKind::Unknown {
                r.dev matches DependencyAction::Manual(v) && str_views(v@) == installs
            } else if options.dry_run {
                r.dev matches DependencyAction::DryRun(v) && str_views(v@) == installs
            } else {
                r.dev matches DependencyAction::Installed(v) && str_views(v@) == installs
            }
        }),
{
    let n = plan.planned_files.len();
    let mut files: Vec<FileApplyReport> = Vec::new();
    let mut i: usize = 0;
    while i < n
        invariant
            disk.wf(),
            n == plan.planned_files@.len(),
            i <= n,
            files@.len() == i,
            forall|j: int|
                0 <= j < i ==> {
                    let pf = pf_views(plan.planned_files@)[j];
                    &&& (#[trigger] files@[j]).destination@ == pf.destination
                    &&& files@[j].component_name@ == pf.component_name
                    &&& files@[j].status == spec_apply_file_status(pf, disk@)
                },
        decreases n - i,
    {
        let pf = &plan.planned_files[i];
        let status: FileStatus = if !pf.apply {
            FileStatus::Skipped
        } else {
            match disk.get(pf.destination.as_str()) {
                None => FileStatus::Created,
                Some(current) => {
                    if crate::text::bytes_eq(current, &pf.contents) {
                        FileStatus::Unchanged
                    } else {
                        FileStatus::Updated
                    }
                },
            }
        };
        proof {
            assert(pf_views(plan.planned_files@)[i as int] == plan.planned_files@[i as int]@);
            assert(status == spec_apply_file_status(pf_views(plan.planned_files@)[i as int],
                disk@));
        }
        files.push(
            FileApplyReport {
                destination: pf.destination.clone(),
                component_name: pf.component_name.clone(),
                status,
            },
        );
        i = i + 1;
    }
    let rendered_barrel = crate::components::render_component_barrel(
        plan.workspace_root.as_str(),
        &plan.config,
        &plan.installed_components,
        &plan.registered_type_exports,
        plan.existing_barrel.as_str(),
    );
    let exports_updated = match &rendered_barrel {
        Some(_) => true,
        None => false,
    };
    let runtime = handle_dependencies(&plan.runtime_requirements, &plan.package_snapshot,
        plan.package_manager, options.dry_run);
    let dev = handle_dependencies(&plan.dev_requirements, &plan.package_snapshot,
        plan.package_manager, options.dry_run);
    ApplyOutcome { files, exports_updated, rendered_barrel, runtime, dev }
}

/// Every planned file's classification comes from comparing its contents
/// with the disk snapshot at its own destination.
pub proof fn lemma_plan_files_status(
    root: Seq<char>,
    config: Config,
    catalog: Seq<(Seq<char>, ComponentRecord)>,
    order: Seq<Seq<char>>,
    manifest: Seq<(Seq<char>, Seq<char>)>,
    disk: Seq<(Seq<char>, Seq<u8>)>,
)
    ensures
        forall|i: int|
            0 <= i < spec_plan_files(root, config, catalog, order, manifest, disk).len() ==> {
                let pf = #[trigger] spec_plan_files(root, config, catalog, order, manifest,
                disk)[i];
                &&& pf.existing_contents == spec_assoc_get(disk, pf.destination)
                &&& pf.status == (match spec_assoc_get(disk, pf.destination) {
                    None => PlannedFileStatus::Create,
                    Some(cur) => if cur == pf.contents {
                        PlannedFileStatus::Unchanged
                    } else {
                        PlannedFileStatus::Update
                    },
                })
                &&& pf.apply
            },
    decreases order.len(),
{
    if order.len() > 0 {
        lemma_plan_files_status(root, config, catalog, order.drop_last(), manifest, disk);
        let prev = spec_plan_files(root, config, catalog, order.drop_last(), manifest, disk);
        let rec = spec_assoc_get(catalog, order.last()).unwrap();
        let comp = spec_component_planned(root, config, rec, manifest, disk);
        assert forall|i: int|
            0 <= i < spec_plan_files(root, config, catalog, order, manifest, disk).len()
                implies {
            let pf = #[trigger] spec_plan_files(root, config, catalog, order, manifest, disk)[i];
            &&& pf.existing_contents == spec_assoc_get(disk, pf.destination)
            &&& pf.status == (match spec_assoc_get(disk, pf.destination) {
                None => PlannedFileStatus::Create,
                Some(cur) => if cur == pf.contents {
                    PlannedFileStatus::Unchanged
                } else {
                    PlannedFileStatus::Update
                },
            })
            &&& pf.apply
        } by {
            let pf = spec_plan_files(root, config, catalog, order, manifest, disk)[i];
            if i < prev.len() {
                assert(pf == prev[i]);
            } else {
                assert(pf == comp[i - prev.len()]);
                assert(comp[i - prev.len()] == spec_planned_file(root, config, rec.name@,
                    rec.files@[i - prev.len()], manifest, disk));
            }
        }
    }
}

/// Re-planning over a disk that already holds every planned file's
/// contents classifies every file as unchanged: re-running an applied
/// plan with no source changes and no intervening edits plans no work.
pub proof fn lemma_replan_unchanged(
    root: Seq<char>,
    config: Config,
    catalog: Seq<(Seq<char>, ComponentRecord)>,
    order: Seq<Seq<char>>,
    manifest: Seq<(Seq<char>, Seq<char>)>,
    disk: Seq<(Seq<char>, Seq<u8>)>,
)
    requires
        forall|i: int|
            0 <= i < spec_plan_files(root, config, catalog, order, manifest, disk).len()
                ==> spec_assoc_get(
                disk,
                (#[trigger] spec_plan_files(root, config, catalog, order, manifest,
                disk)[i]).destination,
            ) == Some(
                spec_plan_files(root, config, catalog, order, manifest, disk)[i].contents,
            ),
    ensures
        forall|i: int|
            0 <= i < spec_plan_files(root, config, catalog, order, manifest, disk).len() ==> (
            #[trigger] spec_plan_files(root, config, catalog, order, manifest, disk)[i]).status
                == PlannedFileStatus::Unchanged,
{
    lemma_plan_files_status(root, config, catalog, order, manifest, disk);
}

/// Membership in the requested set, as a predicate value.
pub open spec fn requested_pred(rv: Seq<Seq<char>>) -> spec_fn(Seq<char>) -> bool {
    |s: Seq<char>| spec_contains_str(rv, s)
}

/// The complement predicate.
pub open spec fn not_requested_pred(rv: Seq<Seq<char>>) -> spec_fn(Seq<char>) -> bool {
    |s: Seq<char>| !spec_contains_str(rv, s)
}

/// Splits the install order into the slugs the user asked for and the
/// internal dependencies pulled in for them, each in install order.
pub fn partition_install_plan(order: &Vec<String>, requested: &Vec<String>) -> (r: (
    Vec<String>,
    Vec<String>,
))
    ensures
        str_views(r.0@) == str_views(order@).filter(requested_pred(str_views(requested@))),
        str_views(r.1@) == str_views(order@).filter(not_requested_pred(str_views(requested@))),
{
    broadcast use vstd::seq_lib::group_filter_ensures;

    let ghost rv = str_views(requested@);
    let ghost ov = str_views(order@);
    let n = order.len();
    let mut asked: Vec<String> = Vec::new();
    let mut pulled: Vec<String> = Vec::new();
    let mut i: usize = 0;
    proof {
        assert(ov.subrange(0, 0).filter(requested_pred(rv)) =~= Seq::<Seq<char>>::empty()) by {
            reveal(Seq::filter);
        }
        assert(ov.subrange(0, 0).filter(not_requested_pred(rv)) =~= Seq::<Seq<char>>::empty())
            by {
            reveal(Seq::filter);
        }
        assert(str_views(asked@) =~= ov.subrange(0, 0).filter(requested_pred(rv)));
        assert(str_views(pulled@) =~= ov.subrange(0, 0).filter(not_requested_pred(rv)));
    }
    while i < n
        invariant
            n == order@.len(),
            rv == str_views(requested@),
            ov == str_views(order@),
            i <= n,
            str_views(asked@) == ov.subrange(0, i as int).filter(requested_pred(rv)),
            str_views(pulled@) == ov.subrange(0, i as int).filter(not_requested_pred(rv)),
        decreases n - i,
    {
        proof {
            assert(ov.subrange(0, i + 1 as int).drop_last() =~= ov.subrange(0, i as int));
            assert(ov.subrange(0, i + 1 as int).last() == ov[i as int]);
            assert(ov[i as int] == order@[i as int]@);
            ov.subrange(0, i as int).lemma_filter_push(ov[i as int], requested_pred(rv));
            ov.subrange(0, i as int).lemma_filter_push(ov[i as int], not_requested_pred(rv));
            assert(ov.subrange(0, i as int).push(ov[i as int]) =~= ov.subrange(0, i + 1 as int));
        }
        let slug = order[i].clone();
        if contains_str(requested, slug.as_str()) {
            let ghost a0 = asked@;
            asked.push(slug);
            proof {
                assert(asked@ == a0.push(asked@.last()));
                assert(str_views(asked@) =~= str_views(a0).push((asked@.last())@));
            }
        } else {
            let ghost p0 = pulled@;
            pulled.push(slug);
            proof {
                assert(pulled@ == p0.push(pulled@.last()));
                assert(str_views(pulled@) =~= str_views(p0).push((pulled@.last())@));
            }
        }
        i = i + 1;
    }
    proof {
        assert(ov.subrange(0, n as int) =~= ov);
    }
    (asked, pulled)
}

} // verus!
