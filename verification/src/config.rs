//! The workspace configuration: directory aliases, the Tailwind entry
//! stylesheet, and the barrel location, with their default values.

use vstd::prelude::*;

verus! {

/// The Tailwind entry stylesheet, relative to the workspace root.
pub struct TailwindEntry {
    pub css: String,
}

impl Default for TailwindEntry {
    fn default() -> (r: Self)
        ensures
            r.css@ == "src/app.css"@,
    {
        TailwindEntry { css: "src/app.css".to_owned() }
    }
}

/// One directory alias: where files land, and how imports name it.
pub struct AliasEntry {
    pub filesystem: String,
    pub import: String,
}

impl AliasEntry {
    pub fn new(filesystem: String, import: String) -> (r: Self)
        ensures
            r.filesystem == filesystem,
            r.import == import,
    {
        AliasEntry { filesystem, import }
    }
}

impl Default for AliasEntry {
    fn default() -> (r: Self)
        ensures
            r.filesystem@ == Seq::<char>::empty(),
            r.import@ == Seq::<char>::empty(),
    {
        AliasEntry { filesystem: String::new(), import: String::new() }
    }
}

/// The alias directories for components, helpers, utilities and assets.
pub struct Aliases {
    pub components: AliasEntry,
    pub helpers: AliasEntry,
    pub utils: AliasEntry,
    pub assets: AliasEntry,
}

impl Default for Aliases {
    fn default() -> (r: Self)
        ensures
            r.components.filesystem@ == "src/lib/motion-core"@,
            r.components.import@ == "$lib/motion-core"@,
            r.helpers.filesystem@ == "src/lib/motion-core/helpers"@,
            r.helpers.import@ == "$lib/motion-core/helpers"@,
            r.utils.filesystem@ == "src/lib/motion-core/utils"@,
            r.utils.import@ == "$lib/motion-core/utils"@,
            r.assets.filesystem@ == "src/lib/motion-core/assets"@,
            r.assets.import@ == "$lib/motion-core/assets"@,
    {
        Aliases {
            components: AliasEntry::new(
                "src/lib/motion-core".to_owned(),
                "$lib/motion-core".to_owned(),
            ),
            helpers: AliasEntry::new(
                "src/lib/motion-core/helpers".to_owned(),
                "$lib/motion-core/helpers".to_owned(),
            ),
            utils: AliasEntry::new(
                "src/lib/motion-core/utils".to_owned(),
                "$lib/motion-core/utils".to_owned(),
            ),
            assets: AliasEntry::new(
                "src/lib/motion-core/assets".to_owned(),
                "$lib/motion-core/assets".to_owned(),
            ),
        }
    }
}

/// Import-path prefixes recognised when rendering the barrel.
pub struct AliasPrefixes {
    pub components: String,
}

impl Default for AliasPrefixes {
    fn default() -> (r: Self)
        ensures
            r.components@ == "$lib/motion-core"@,
    {
        AliasPrefixes { components: "$lib/motion-core".to_owned() }
    }
}

/// How component exports are written.
#[derive(Clone, Copy, PartialEq, Eq, Debug, Structural)]
pub enum ExportStrategy {
    Named,
}

impl Default for ExportStrategy {
    fn default() -> (r: Self)
        ensures
            r == ExportStrategy::Named,
    {
        ExportStrategy::Named
    }
}

/// Where the component barrel lives and how it is written.
pub struct ExportEntry {
    pub barrel: String,
    pub strategy: ExportStrategy,
}

impl Default for ExportEntry {
    fn default() -> (r: Self)
        ensures
            r.barrel@ == "src/lib/motion-core/index.ts"@,
            r.strategy == ExportStrategy::Named,
    {
        ExportEntry {
            barrel: "src/lib/motion-core/index.ts".to_owned(),
            strategy: ExportStrategy::Named,
        }
    }
}

/// The export configuration.
pub struct Exports {
    pub components: ExportEntry,
}

impl Default for Exports {
    fn default() -> (r: Self)
        ensures
            r.components.barrel@ == "src/lib/motion-core/index.ts"@,
            r.components.strategy == ExportStrategy::Named,
    {
        Exports { components: ExportEntry::default() }
    }
}

/// The workspace configuration.
pub struct Config {
    pub schema: Option<String>,
    pub tailwind: TailwindEntry,
    pub aliases: Aliases,
    pub alias_prefixes: AliasPrefixes,
    pub exports: Exports,
}

impl Default for Config {
    fn default() -> (r: Self)
        ensures
            r.schema matches Some(s) && s@
                == "https://motion-core.dev/registry/schema/config-schema.json"@,
            r.tailwind.css@ == "src/app.css"@,
            r.aliases.components.filesystem@ == "src/lib/motion-core"@,
            r.aliases.helpers.filesystem@ == "src/lib/motion-core/helpers"@,
            r.aliases.utils.filesystem@ == "src/lib/motion-core/utils"@,
            r.aliases.assets.filesystem@ == "src/lib/motion-core/assets"@,
            r.alias_prefixes.components@ == "$lib/motion-core"@,
            r.exports.components.barrel@ == "src/lib/motion-core/index.ts"@,
            r.exports.components.strategy == ExportStrategy::Named,
    {
        Config {
            schema: Some(
                "https://motion-core.dev/registry/schema/config-schema.json".to_owned(),
            ),
            tailwind: TailwindEntry::default(),
            aliases: Aliases::default(),
            alias_prefixes: AliasPrefixes::default(),
            exports: Exports::default(),
        }
    }
}

} // verus!
