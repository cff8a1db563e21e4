//! The structured declarations that extraction produces: dependencies and
//! plugins together with their provenance.

use vstd::prelude::*;

verus! {

// ---------------------------------------------------------------------------
// Dependencies
// ---------------------------------------------------------------------------

/// An external library coordinate. The version is absent when it is managed
/// elsewhere, for example by a bill of materials.
#[derive(Debug)]
pub struct Dependency {
    pub group: String,
    pub artifact: String,
    pub version: Option<String>,
}

/// Mathematical image of a `Dependency`.
pub struct DependencyV {
    pub group: Seq<char>,
    pub artifact: Seq<char>,
    pub version: Option<Seq<char>>,
}

impl View for Dependency {
    type V = DependencyV;

    open spec fn view(&self) -> DependencyV {
        DependencyV {
            group: self.group@,
            artifact: self.artifact@,
            version: self.version.deep_view(),
        }
    }
}

impl DeepView for Dependency {
    type V = DependencyV;

    open spec fn deep_view(&self) -> DependencyV {
        self.view()
    }
}

impl Clone for Dependency {
    fn clone(&self) -> (r: Self)
        ensures
            r == self,
    {
        Dependency {
            group: self.group.clone(),
            artifact: self.artifact.clone(),
            version: match &self.version {
                Some(v) => Some(v.clone()),
                None => None,
            },
        }
    }
}

/// How a dependency declaration was written down.
#[derive(Debug)]
pub enum DependencySourceType {
    /// A literal `group:artifact:version` string in the build file.
    Direct,
    /// Resolved through a version catalog; holds the alias reference.
    VersionCatalog(String),
}

/// Mathematical image of a `DependencySourceType`.
pub enum DependencySourceTypeV {
    Direct,
    VersionCatalog(Seq<char>),
}

impl View for DependencySourceType {
    type V = DependencySourceTypeV;

    open spec fn view(&self) -> DependencySourceTypeV {
        match self {
            DependencySourceType::Direct => DependencySourceTypeV::Direct,
            DependencySourceType::VersionCatalog(r) => DependencySourceTypeV::VersionCatalog(r@),
        }
    }
}

impl DeepView for DependencySourceType {
    type V = DependencySourceTypeV;

    open spec fn deep_view(&self) -> DependencySourceTypeV {
        self.view()
    }
}

impl Clone for DependencySourceType {
    fn clone(&self) -> (r: Self)
        ensures
            r == self,
    {
        match self {
            DependencySourceType::Direct => DependencySourceType::Direct,
            DependencySourceType::VersionCatalog(r) => DependencySourceType::VersionCatalog(
                r.clone(),
            ),
        }
    }
}

/// A dependency declaration with its provenance: the build file it came
/// from, its 1-based line number, the configuration it was declared under
/// (possibly suffixed with a source-set name), and how it was written.
#[derive(Debug)]
pub struct DependencyLocation {
    pub dependency: Dependency,
    pub file_path: String,
    pub line_number: usize,
    pub configuration: String,
    pub source_type: DependencySourceType,
}

/// Mathematical image of a `DependencyLocation`.
pub struct DependencyLocationV {
    pub dependency: DependencyV,
    pub file_path: Seq<char>,
    pub line_number: int,
    pub configuration: Seq<char>,
    pub source_type: DependencySourceTypeV,
}

impl View for DependencyLocation {
    type V = DependencyLocationV;

    open spec fn view(&self) -> DependencyLocationV {
        DependencyLocationV {
            dependency: self.dependency@,
            file_path: self.file_path@,
            line_number: self.line_number as int,
            configuration: self.configuration@,
            source_type: self.source_type@,
        }
    }
}

impl DeepView for DependencyLocation {
    type V = DependencyLocationV;

    open spec fn deep_view(&self) -> DependencyLocationV {
        self.view()
    }
}

impl Clone for DependencyLocation {
    fn clone(&self) -> (r: Self)
        ensures
            r == self,
    {
        DependencyLocation {
            dependency: self.dependency.clone(),
            file_path: self.file_path.clone(),
            line_number: self.line_number,
            configuration: self.configuration.clone(),
            source_type: self.source_type.clone(),
        }
    }
}

// ---------------------------------------------------------------------------
// Plugins
// ---------------------------------------------------------------------------

/// A build plugin: an identifier and an optional version.
#[derive(Debug)]
pub struct Plugin {
    pub id: String,
    pub version: Option<String>,
}

/// Mathematical image of a `Plugin`.
pub struct PluginV {
    pub id: Seq<char>,
    pub version: Option<Seq<char>>,
}

impl View for Plugin {
    type V = PluginV;

    open spec fn view(&self) -> PluginV {
        PluginV { id: self.id@, version: self.version.deep_view() }
    }
}

impl DeepView for Plugin {
    type V = PluginV;

    open spec fn deep_view(&self) -> PluginV {
        self.view()
    }
}

impl Clone for Plugin {
    fn clone(&self) -> (r: Self)
        ensures
            r == self,
    {
        Plugin {
            id: self.id.clone(),
            version: match &self.version {
                Some(v) => Some(v.clone()),
                None => None,
            },
        }
    }
}

/// How a plugin declaration was written down.
#[derive(Debug)]
pub enum PluginSourceType {
    /// An entry of a `plugins` block.
    PluginsBlock,
    /// An `apply plugin` statement.
    ApplyPlugin,
    /// Resolved through a version catalog; holds the alias reference.
    VersionCatalog(String),
}

/// Mathematical image of a `PluginSourceType`.
pub enum PluginSourceTypeV {
    PluginsBlock,
    ApplyPlugin,
    VersionCatalog(Seq<char>),
}

impl View for PluginSourceType {
    type V = PluginSourceTypeV;

    open spec fn view(&self) -> PluginSourceTypeV {
        match self {
            PluginSourceType::PluginsBlock => PluginSourceTypeV::PluginsBlock,
            PluginSourceType::ApplyPlugin => PluginSourceTypeV::ApplyPlugin,
            PluginSourceType::VersionCatalog(r) => PluginSourceTypeV::VersionCatalog(r@),
        }
    }
}

impl DeepView for PluginSourceType {
    type V = PluginSourceTypeV;

    open spec fn deep_view(&self) -> PluginSourceTypeV {
        self.view()
    }
}

impl Clone for PluginSourceType {
    fn clone(&self) -> (r: Self)
        ensures
            r == self,
    {
        match self {
            PluginSourceType::PluginsBlock => PluginSourceType::PluginsBlock,
            PluginSourceType::ApplyPlugin => PluginSourceType::ApplyPlugin,
            PluginSourceType::VersionCatalog(r) => PluginSourceType::VersionCatalog(r.clone()),
        }
    }
}

/// A plugin declaration with its provenance.
#[derive(Debug)]
pub struct PluginLocation {
    pub plugin: Plugin,
    pub file_path: String,
    pub line_number: usize,
    pub source_type: PluginSourceType,
}

/// Mathematical image of a `PluginLocation`.
pub struct PluginLocationV {
    pub plugin: PluginV,
    pub file_path: Seq<char>,
    pub line_number: int,
    pub source_type: PluginSourceTypeV,
}

impl View for PluginLocation {
    type V = PluginLocationV;

    open spec fn view(&self) -> PluginLocationV {
        PluginLocationV {
            plugin: self.plugin@,
            file_path: self.file_path@,
            line_number: self.line_number as int,
            source_type: self.source_type@,
        }
    }
}

impl DeepView for PluginLocation {
    type V = PluginLocationV;

    open spec fn deep_view(&self) -> PluginLocationV {
        self.view()
    }
}

impl Clone for PluginLocation {
    fn clone(&self) -> (r: Self)
        ensures
            r == self,
    {
        PluginLocation {
            plugin: self.plugin.clone(),
            file_path: self.file_path.clone(),
            line_number: self.line_number,
            source_type: self.source_type.clone(),
        }
    }
}

// ---------------------------------------------------------------------------
// Identity keys
// ---------------------------------------------------------------------------

/// The identity key of a coordinate: `group:artifact`.
pub open spec fn spec_dependency_key(group: Seq<char>, artifact: Seq<char>) -> Seq<char> {
    group + seq![':'] + artifact
}

/// The identity key of a located dependency declaration.
pub open spec fn key_of(d: DependencyLocationV) -> Seq<char> {
    spec_dependency_key(d.dependency.group, d.dependency.artifact)
}

/// Builds the `group:artifact` identity key under which declarations of the
/// same library are grouped, whatever their versions.
pub fn create_dependency_key(group: &str, artifact: &str) -> (r: String)
    ensures
        r@ == spec_dependency_key(group@, artifact@),
{
    let mut s = group.to_owned();
    s.append(":");
    s.append(artifact);
    proof {
        reveal_strlit(":");
        assert(":"@ =~= seq![':']);
        assert(s@ =~= spec_dependency_key(group@, artifact@));
    }
    s
}

/// Builds a located dependency declaration from its parts.
pub fn create_dependency_location(
    group: String,
    artifact: String,
    version: Option<String>,
    configuration: String,
    file_path: &str,
    line_number: usize,
    source_type: DependencySourceType,
) -> (r: DependencyLocation)
    ensures
        r@.dependency.group == group@,
        r@.dependency.artifact == artifact@,
        r@.dependency.version == version.deep_view(),
        r@.configuration == configuration@,
        r@.file_path == file_path@,
        r@.line_number == line_number as int,
        r@.source_type == source_type@,
{
    DependencyLocation {
        dependency: Dependency { group, artifact, version },
        file_path: file_path.to_owned(),
        line_number,
        configuration,
        source_type,
    }
}

/// Builds a located plugin declaration from its parts.
pub fn create_plugin_location(
    id: String,
    version: Option<String>,
    file_path: &str,
    line_number: usize,
    source_type: PluginSourceType,
) -> (r: PluginLocation)
    ensures
        r@.plugin.id == id@,
        r@.plugin.version == version.deep_view(),
        r@.file_path == file_path@,
        r@.line_number == line_number as int,
        r@.source_type == source_type@,
{
    PluginLocation {
        plugin: Plugin { id, version },
        file_path: file_path.to_owned(),
        line_number,
        source_type,
    }
}

} // verus!
