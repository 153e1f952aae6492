//! The catalog data model and the catalog-level operations of the registry
//! client: listing components, summarising the catalog, exposing base
//! dependencies and fetching component files out of a path-to-base64
//! manifest.
//!
//! Loading a catalog over the network and caching it on disk live outside
//! the library; everything here works on plain values.

use vstd::prelude::*;

use crate::strmap::{
    StrMap, spec_assoc_get, spec_assoc_insert, spec_sorted_keys, spec_str_lt, chars_lt,
    lemma_assoc_get_at, lemma_assoc_get_absent, lemma_assoc_insert_at,
    lemma_assoc_insert_position, lemma_sorted_after_insert, lemma_str_lt_total,
    lemma_str_lt_asymm,
};
use crate::text::{chars_of, chars_eq};

verus! {

/// One file of a component bundle, as the catalog declares it.
pub struct ComponentFileRecord {
    pub path: String,
    pub target: Option<String>,
    pub kind: Option<String>,
    pub type_exports: Vec<String>,
}

/// An optional preview attached to a component.
pub struct ComponentPreview {
    pub video: Option<String>,
    pub poster: Option<String>,
}

/// A component bundle: its files, external dependency requirements and
/// internal dependencies on other components.
pub struct ComponentRecord {
    pub name: String,
    pub description: Option<String>,
    pub category: Option<String>,
    pub preview: Option<ComponentPreview>,
    pub files: Vec<ComponentFileRecord>,
    pub dependencies: StrMap,
    pub dev_dependencies: StrMap,
    pub internal_dependencies: Vec<String>,
}

impl ComponentRecord {
    /// The dependency maps are structurally valid.
    pub open spec fn wf(&self) -> bool {
        self.dependencies.wf() && self.dev_dependencies.wf()
    }
}

/// A slug together with its component record.
pub struct RegistryComponent {
    pub slug: String,
    pub component: ComponentRecord,
}

/// A catalog: metadata, base dependencies and the components keyed by slug.
pub struct Registry {
    pub name: String,
    pub version: String,
    pub description: Option<String>,
    pub base_dependencies: StrMap,
    pub base_dev_dependencies: StrMap,
    pub components: Vec<RegistryComponent>,
}

/// The association view of the component list.
pub open spec fn components_assoc(components: Seq<RegistryComponent>) -> Seq<
    (Seq<char>, ComponentRecord),
> {
    components.map_values(|c: RegistryComponent| (c.slug@, c.component))
}

impl Registry {
    /// Slugs strictly ascending (hence unique), maps structurally valid.
    pub open spec fn wf(&self) -> bool {
        &&& spec_sorted_keys(components_assoc(self.components@))
        &&& self.base_dependencies.wf()
        &&& self.base_dev_dependencies.wf()
        &&& forall|i: int|
            0 <= i < self.components@.len() ==> (#[trigger] self.components@[i]).component.wf()
    }

    /// An empty catalog with the given metadata.
    pub fn new(name: String, version: String) -> (r: Registry)
        ensures
            r.wf(),
            r.name == name,
            r.version == version,
            r.components@.len() == 0,
            r.base_dependencies@.len() == 0,
            r.base_dev_dependencies@.len() == 0,
    {
        Registry {
            name,
            version,
            description: None,
            base_dependencies: StrMap::new(),
            base_dev_dependencies: StrMap::new(),
            components: Vec::new(),
        }
    }

    /// Adds (or replaces) the component stored under `slug`, keeping the
    /// catalog ordered by slug.
    pub fn add_component(&mut self, slug: String, component: ComponentRecord)
        requires
            old(self).wf(),
            component.wf(),
        ensures
            final(self).wf(),
            components_assoc(final(self).components@) == spec_assoc_insert(
                components_assoc(old(self).components@),
                slug@,
                component,
            ),
            final(self).name == old(self).name,
            final(self).version == old(self).version,
            final(self).description == old(self).description,
            final(self).base_dependencies == old(self).base_dependencies,
            final(self).base_dev_dependencies == old(self).base_dev_dependencies,
    {
        let kc = chars_of(slug.as_str());
        let n = self.components.len();
        let ghost orig = components_assoc(self.components@);
        let mut i: usize = 0;
        let mut stop: bool = false;
        while !stop
            invariant
                self == old(self),
                self.wf(),
                orig == components_assoc(self.components@),
                n == self.components@.len(),
                i <= n,
                kc@ == slug@,
                component.wf(),
                forall|j: int| 0 <= j < i ==> spec_str_lt(orig[j].0, slug@),
                stop ==> (i == n || spec_str_lt(slug@, orig[i as int].0)),
            decreases n - i + (if stop {
                0int
            } else {
                1int
            }),
        {
            if i == n {
                stop = true;
            } else {
                proof {
                    assert(orig[i as int] == (self.components@[i as int].slug@,
                    self.components@[i as int].component));
                }
                let ki = chars_of(self.components[i].slug.as_str());
                if chars_eq(&ki, &kc) {
                    let _removed = self.components.remove(i);
                    self.components.insert(i, RegistryComponent { slug, component });
                    proof {
                        assert(self.components@ =~= old(self).components@.update(
                            i as int,
                            RegistryComponent { slug, component },
                        ));
                        lemma_assoc_insert_at(orig, slug@, component, i as int);
                        assert(components_assoc(self.components@) =~= orig.update(
                            i as int,
                            (slug@, component),
                        ));
                        assert forall|p: int, q: int|
                            0 <= p < q < components_assoc(self.components@).len() implies
                            spec_str_lt(
                            #[trigger] components_assoc(self.components@)[p].0,
                            #[trigger] components_assoc(self.components@)[q].0,
                        ) by {
                            assert(components_assoc(self.components@)[p].0 == orig[p].0);
                            assert(components_assoc(self.components@)[q].0 == orig[q].0);
                        }
                        assert forall|j: int|
                            0 <= j < self.components@.len() implies (
                        #[trigger] self.components@[j]).component.wf() by {
                            if j != i {
                                assert(self.components@[j] == old(self).components@[j]);
                                assert(old(self).components@[j].component.wf());
                            } else {
                                assert(self.components@[j] == RegistryComponent {
                                    slug,
                                    component,
                                });
                                assert(self.components@[j].component == component);
                                assert(component.wf());
                            }
                        }
                    }
                    return ;
                }
                if chars_lt(&kc, &ki) {
                    stop = true;
                } else {
                    proof {
                        lemma_str_lt_total(orig[i as int].0, slug@);
                        lemma_str_lt_asymm(slug@, orig[i as int].0);
                    }
                    i = i + 1;
                }
            }
        }
        self.components.insert(i, RegistryComponent { slug, component });
        proof {
            assert(components_assoc(self.components@) =~= orig.insert(
                i as int,
                (slug@, component),
            ));
            lemma_assoc_insert_position(orig, slug@, component, i as int);
            lemma_sorted_after_insert(orig, slug@, component, i as int);
        }
    }

    /// The component stored under `slug`, if any.
    pub fn find_component(&self, slug: &str) -> (r: Option<&ComponentRecord>)
        requires
            self.wf(),
        ensures
            match r {
                Some(c) => spec_assoc_get(components_assoc(self.components@), slug@) == Some(*c)
                    && c.wf(),
                None => spec_assoc_get(components_assoc(self.components@), slug@) is None,
            },
    {
        let kc = chars_of(slug);
        let n = self.components.len();
        let ghost assoc = components_assoc(self.components@);
        let mut i: usize = 0;
        while i < n
            invariant
                self.wf(),
                assoc == components_assoc(self.components@),
                n == self.components@.len(),
                i <= n,
                kc@ == slug@,
                forall|j: int| 0 <= j < i ==> assoc[j].0 != slug@,
            decreases n - i,
        {
            proof {
                assert(assoc[i as int] == (self.components@[i as int].slug@,
                self.components@[i as int].component));
            }
            let ki = chars_of(self.components[i].slug.as_str());
            if chars_eq(&ki, &kc) {
                proof {
                    lemma_assoc_get_at(assoc, slug@, i as int);
                }
                return Some(&self.components[i].component);
            }
            i = i + 1;
        }
        proof {
            lemma_assoc_get_absent(assoc, slug@);
        }
        None
    }

    /// The components of the catalog, in ascending slug order.
    pub fn list_components(&self) -> (r: &Vec<RegistryComponent>)
        requires
            self.wf(),
        ensures
            r == &self.components,
            spec_sorted_keys(components_assoc(r@)),
    {
        &self.components
    }

    /// The catalog's metadata and component count.
    pub fn summary(&self) -> (r: RegistrySummary)
        requires
            self.wf(),
        ensures
            r.name@ == self.name@,
            r.version@ == self.version@,
            r.description == self.description,
            r.component_count == self.components@.len(),
    {
        RegistrySummary {
            component_count: self.components.len(),
            name: self.name.clone(),
            version: self.version.clone(),
            description: crate::text::clone_opt_string(&self.description),
        }
    }

    /// The catalog's base dependency maps.
    pub fn base_dependencies(&self) -> (r: RegistryBaseDependencies)
        requires
            self.wf(),
        ensures
            r.dependencies.wf(),
            r.dependencies@ == self.base_dependencies@,
            r.dev_dependencies.wf(),
            r.dev_dependencies@ == self.base_dev_dependencies@,
    {
        RegistryBaseDependencies {
            dependencies: self.base_dependencies.clone_map(),
            dev_dependencies: self.base_dev_dependencies.clone_map(),
        }
    }
}

/// The metadata of a catalog.
#[derive(Debug)]
pub struct RegistrySummary {
    pub name: String,
    pub version: String,
    pub description: Option<String>,
    pub component_count: usize,
}

/// The base dependencies a catalog installs regardless of components.
pub struct RegistryBaseDependencies {
    pub dependencies: StrMap,
    pub dev_dependencies: StrMap,
}

/// What can go wrong talking to a registry.
#[derive(Debug)]
pub enum RegistryError {
    Network(String),
    NotFound(String),
    Parse(String),
    AssetNotFound(String),
    Decode(String, String),
}

/// What the base64 standard alphabet decodes `s` to, or nothing when `s`
/// is not valid base64.
pub uninterp spec fn b64_decode_of(s: Seq<char>) -> Option<Seq<u8>>;

/// Relies on base64's `STANDARD` engine `decode`: the decoded bytes, an
/// error exactly on invalid base64 (its message is unspecified).
#[verifier::external_body]
fn b64_decode(text: &str) -> (r: Result<Vec<u8>, String>)
    ensures
        match r {
            Ok(v) => b64_decode_of(text@) == Some(v@),
            Err(_) => b64_decode_of(text@) is None,
        },
{
    base64::Engine::decode(&base64::engine::general_purpose::STANDARD, text).map_err(|e| {
        e.to_string()
    })
}

/// Looks `path` up in a component-file manifest (a map from registry paths
/// to base64 payloads) and decodes it.
pub fn fetch_component_file(manifest: &StrMap, path: &str) -> (r: Result<Vec<u8>, RegistryError>)
    requires
        manifest.wf(),
    ensures
        match spec_assoc_get(manifest@, path@) {
            None => r matches Err(RegistryError::AssetNotFound(p)) && p@ == path@,
            Some(enc) => match b64_decode_of(enc) {
                Some(bytes) => r matches Ok(b) && b@ == bytes,
                None => r matches Err(RegistryError::Decode(p, _)) && p@ == path@,
            },
        },
{
    let encoded = match manifest.get(path) {
        Some(e) => e,
        None => {
            return Err(RegistryError::AssetNotFound(path.to_owned()));
        },
    };
    match b64_decode(encoded.as_str()) {
        Ok(bytes) => Ok(bytes),
        Err(msg) => Err(RegistryError::Decode(path.to_owned(), msg)),
    }
}

} // verus!
