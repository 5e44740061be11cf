use vstd::prelude::*;

use crate::text_order::text_equal;
use std::sync::Arc;

verus! {

pub const MODRINTH_SEARCH_URL: &'static str = "https://api.modrinth.com/v2/search";

pub const MODRINTH_PROJECT_URL: &'static str = "https://api.modrinth.com/v2/project";

// ---------------------------------------------------------------------------
// Search
// ---------------------------------------------------------------------------

/// How search results are ordered.
#[derive(Debug, Copy, Clone, Hash, PartialEq, Eq, PartialOrd, Ord, Structural)]
pub enum ModrinthSearchIndex {
    Relevance,
    Downloads,
    Follows,
    Newest,
    Updated,
}

impl Default for ModrinthSearchIndex {
    fn default() -> (r: Self)
        ensures
            r == ModrinthSearchIndex::Relevance,
    {
        ModrinthSearchIndex::Relevance
    }
}

/// The name of a search index in the query string.
pub open spec fn search_index_name(index: ModrinthSearchIndex) -> Seq<char> {
    match index {
        ModrinthSearchIndex::Relevance => "relevance"@,
        ModrinthSearchIndex::Downloads => "downloads"@,
        ModrinthSearchIndex::Follows => "follows"@,
        ModrinthSearchIndex::Newest => "newest"@,
        ModrinthSearchIndex::Updated => "updated"@,
    }
}

impl ModrinthSearchIndex {
    pub fn as_str(&self) -> (r: &'static str)
        ensures
            r@ == search_index_name(*self),
    {
        match self {
            ModrinthSearchIndex::Relevance => "relevance",
            ModrinthSearchIndex::Downloads => "downloads",
            ModrinthSearchIndex::Follows => "follows",
            ModrinthSearchIndex::Newest => "newest",
            ModrinthSearchIndex::Updated => "updated",
        }
    }
}

#[derive(Debug, Clone, Hash, PartialEq, Eq, PartialOrd, Ord)]
pub struct ModrinthSearchRequest {
    pub query: Option<Arc<str>>,
    pub facets: Option<Arc<str>>,
    pub index: ModrinthSearchIndex,
    pub offset: usize,
    pub limit: usize,
}

#[derive(Debug, Clone)]
pub struct ModrinthSearchResult {
    pub hits: Arc<[ModrinthHit]>,
    pub offset: usize,
    pub limit: usize,
    pub total_hits: usize,
}

#[derive(Debug, Clone)]
pub struct ModrinthHit {
    pub slug: Option<Arc<str>>,
    pub title: Option<Arc<str>>,
    pub description: Option<Arc<str>>,
    pub client_side: Option<ModrinthSideRequirement>,
    pub server_side: Option<ModrinthSideRequirement>,
    pub project_type: ModrinthProjectType,
    pub downloads: u64,
    pub icon_url: Option<Arc<str>>,
    pub project_id: Arc<str>,
    pub author: Arc<str>,
    pub display_categories: Option<Arc<[Arc<str>]>>,
}

#[derive(PartialEq, Eq, Debug, Copy, Clone, Structural)]
pub enum ModrinthSideRequirement {
    Required,
    Optional,
    Unsupported,
    Unknown,
}

// ---------------------------------------------------------------------------
// Project types
// ---------------------------------------------------------------------------

#[derive(Debug, Copy, Clone, PartialEq, Eq, Structural)]
pub enum ModrinthProjectType {
    Mod,
    Modpack,
    Resourcepack,
    Shader,
    Datapack,
    Other,
}

impl Default for ModrinthProjectType {
    fn default() -> (r: Self)
        ensures
            r == ModrinthProjectType::Other,
    {
        ModrinthProjectType::Other
    }
}

/// The name of a project type in the API.
pub open spec fn project_type_name(t: ModrinthProjectType) -> Seq<char> {
    match t {
        ModrinthProjectType::Mod => "mod"@,
        ModrinthProjectType::Modpack => "modpack"@,
        ModrinthProjectType::Resourcepack => "resourcepack"@,
        ModrinthProjectType::Shader => "shader"@,
        ModrinthProjectType::Datapack => "datapack"@,
        ModrinthProjectType::Other => "other"@,
    }
}

impl ModrinthProjectType {
    pub fn as_str(self) -> (r: &'static str)
        ensures
            r@ == project_type_name(self),
    {
        match self {
            ModrinthProjectType::Mod => "mod",
            ModrinthProjectType::Modpack => "modpack",
            ModrinthProjectType::Resourcepack => "resourcepack",
            ModrinthProjectType::Shader => "shader",
            ModrinthProjectType::Datapack => "datapack",
            ModrinthProjectType::Other => "other",
        }
    }

    pub fn mod_or_modpack(self) -> (r: bool)
        ensures
            r == (self == ModrinthProjectType::Mod || self == ModrinthProjectType::Modpack),
    {
        match self {
            Self::Mod | Self::Modpack => true,
            _ => false,
        }
    }
}

// ---------------------------------------------------------------------------
// Versions
// ---------------------------------------------------------------------------

#[derive(Debug, Clone, Hash, PartialEq, Eq, PartialOrd, Ord)]
pub struct ModrinthProjectVersionsRequest {
    pub project_id: Arc<str>,
    pub game_versions: Option<Arc<[Arc<str>]>>,
    pub loaders: Option<Arc<[ModrinthLoader]>>,
}

#[derive(Debug, Clone)]
pub struct ModrinthProjectVersionsResult(pub Arc<[ModrinthProjectVersion]>);

/// A version of a project. Two versions are the same version when their ids are.
#[derive(Debug, Clone)]
pub struct ModrinthProjectVersion {
    pub game_versions: Option<Arc<[Arc<str>]>>,
    pub loaders: Option<Arc<[ModrinthLoader]>>,
    pub id: Arc<str>,
    pub project_id: Arc<str>,
    pub name: Option<Arc<str>>,
    pub version_number: Option<Arc<str>>,
    pub dependencies: Option<Vec<ModrinthDependency>>,
    pub version_type: Option<ModrinthVersionType>,
    pub status: Option<ModrinthVersionStatus>,
    pub files: Arc<[ModrinthFile]>,
}

impl PartialEq for ModrinthProjectVersion {
    fn eq(&self, other: &Self) -> (r: bool) {
        text_equal(&self.id, &other.id)
    }
}

impl vstd::std_specs::cmp::PartialEqSpecImpl for ModrinthProjectVersion {
    open spec fn obeys_eq_spec() -> bool {
        true
    }

    open spec fn eq_spec(&self, other: &Self) -> bool {
        (*self.id)@ == (*other.id)@
    }
}

impl Eq for ModrinthProjectVersion {

}

#[derive(Debug, Clone, PartialEq, Eq)]
pub struct ModrinthDependency {
    pub version_id: Option<Arc<str>>,
    pub project_id: Option<Arc<str>>,
    pub file_name: Option<Arc<str>>,
    pub dependency_type: ModrinthDependencyType,
}

#[derive(PartialEq, Eq, Debug, Copy, Clone, Structural)]
pub enum ModrinthDependencyType {
    Required,
    Optional,
    Incompatible,
    Embedded,
}

// ---------------------------------------------------------------------------
// Loaders
// ---------------------------------------------------------------------------

/// The mod loaders the launcher itself can install.
#[derive(Debug, Copy, Clone, PartialEq, Eq, Hash, Structural)]
pub enum Loader {
    Fabric,
    Forge,
    NeoForge,
}

#[derive(Debug, Copy, Clone, PartialEq, Eq, Hash, PartialOrd, Ord, Structural)]
pub enum ModrinthLoader {
    Fabric,
    Forge,
    NeoForge,
    Minecraft,
    Iris,
    Optifine,
    Canvas,
    Datapack,
    Unknown,
}

/// The directory, under an instance, that content for a loader is installed into.
pub open spec fn loader_install_directory(loader: ModrinthLoader) -> Option<Seq<char>> {
    match loader {
        ModrinthLoader::Fabric | ModrinthLoader::Forge | ModrinthLoader::NeoForge => Some(
            "mods"@,
        ),
        ModrinthLoader::Minecraft => Some("resourcepacks"@),
        ModrinthLoader::Iris | ModrinthLoader::Optifine => Some("shaderpacks"@),
        ModrinthLoader::Canvas => Some("resourcepacks"@),
        ModrinthLoader::Datapack => Some("saves/World/datapacks"@),
        ModrinthLoader::Unknown => None,
    }
}

/// The display name of a loader.
pub open spec fn loader_pretty_name(loader: ModrinthLoader) -> Seq<char> {
    match loader {
        ModrinthLoader::Fabric => "Fabric"@,
        ModrinthLoader::Forge => "Forge"@,
        ModrinthLoader::NeoForge => "NeoForge"@,
        ModrinthLoader::Minecraft => "Minecraft"@,
        ModrinthLoader::Iris => "Iris"@,
        ModrinthLoader::Optifine => "Optifine"@,
        ModrinthLoader::Canvas => "Canvas"@,
        ModrinthLoader::Datapack => "Datapack"@,
        ModrinthLoader::Unknown => "Unknown"@,
    }
}

/// The identifier of a loader in the API.
pub open spec fn loader_id(loader: ModrinthLoader) -> Seq<char> {
    match loader {
        ModrinthLoader::Fabric => "fabric"@,
        ModrinthLoader::Forge => "forge"@,
        ModrinthLoader::NeoForge => "neoforge"@,
        ModrinthLoader::Minecraft => "minecraft"@,
        ModrinthLoader::Iris => "iris"@,
        ModrinthLoader::Optifine => "optifine"@,
        ModrinthLoader::Canvas => "canvas"@,
        ModrinthLoader::Datapack => "datapack"@,
        ModrinthLoader::Unknown => "unknown"@,
    }
}

/// The loader a name stands for: its display name or its identifier, else `Unknown`.
pub open spec fn loader_named(name: Seq<char>) -> ModrinthLoader {
    if name == "Fabric"@ || name == "fabric"@ {
        ModrinthLoader::Fabric
    } else if name == "Forge"@ || name == "forge"@ {
        ModrinthLoader::Forge
    } else if name == "NeoForge"@ || name == "neoforge"@ {
        ModrinthLoader::NeoForge
    } else if name == "Minecraft"@ || name == "minecraft"@ {
        ModrinthLoader::Minecraft
    } else if name == "Iris"@ || name == "iris"@ {
        ModrinthLoader::Iris
    } else if name == "Optifine"@ || name == "optifine"@ {
        ModrinthLoader::Optifine
    } else if name == "Canvas"@ || name == "canvas"@ {
        ModrinthLoader::Canvas
    } else if name == "Datapack"@ || name == "datapack"@ {
        ModrinthLoader::Datapack
    } else {
        ModrinthLoader::Unknown
    }
}

/// The launcher's own loader for a Modrinth loader, where it has one.
pub open spec fn loader_as_pandora(loader: ModrinthLoader) -> Option<Loader> {
    match loader {
        ModrinthLoader::Fabric => Some(Loader::Fabric),
        ModrinthLoader::Forge => Some(Loader::Forge),
        ModrinthLoader::NeoForge => Some(Loader::NeoForge),
        _ => None,
    }
}

impl ModrinthLoader {
    pub fn install_directory(self) -> (r: Option<&'static str>)
        ensures
            match r {
                Some(d) => loader_install_directory(self) == Some(d@),
                None => loader_install_directory(self) is None,
            },
    {
        match self {
            ModrinthLoader::Fabric | ModrinthLoader::Forge | ModrinthLoader::NeoForge => Some(
                "mods",
            ),
            ModrinthLoader::Minecraft => Some("resourcepacks"),
            ModrinthLoader::Iris | ModrinthLoader::Optifine => Some("shaderpacks"),
            ModrinthLoader::Canvas => Some("resourcepacks"),
            ModrinthLoader::Datapack => Some("saves/World/datapacks"),
            ModrinthLoader::Unknown => None,
        }
    }

    pub fn pretty_name(self) -> (r: &'static str)
        ensures
            r@ == loader_pretty_name(self),
    {
        match self {
            Self::Fabric => "Fabric",
            Self::Forge => "Forge",
            Self::NeoForge => "NeoForge",
            Self::Minecraft => "Minecraft",
            Self::Iris => "Iris",
            Self::Optifine => "Optifine",
            Self::Canvas => "Canvas",
            Self::Datapack => "Datapack",
            Self::Unknown => "Unknown",
        }
    }

    pub fn id(self) -> (r: &'static str)
        ensures
            r@ == loader_id(self),
    {
        match self {
            Self::Fabric => "fabric",
            Self::Forge => "forge",
            Self::NeoForge => "neoforge",
            Self::Minecraft => "minecraft",
            Self::Iris => "iris",
            Self::Optifine => "optifine",
            Self::Canvas => "canvas",
            Self::Datapack => "datapack",
            Self::Unknown => "unknown",
        }
    }

    pub fn from_name(str: &str) -> (r: Self)
        ensures
            r == loader_named(str@),
    {
        if text_equal(str, "Fabric") || text_equal(str, "fabric") {
            Self::Fabric
        } else if text_equal(str, "Forge") || text_equal(str, "forge") {
            Self::Forge
        } else if text_equal(str, "NeoForge") || text_equal(str, "neoforge") {
            Self::NeoForge
        } else if text_equal(str, "Minecraft") || text_equal(str, "minecraft") {
            Self::Minecraft
        } else if text_equal(str, "Iris") || text_equal(str, "iris") {
            Self::Iris
        } else if text_equal(str, "Optifine") || text_equal(str, "optifine") {
            Self::Optifine
        } else if text_equal(str, "Canvas") || text_equal(str, "canvas") {
            Self::Canvas
        } else if text_equal(str, "Datapack") || text_equal(str, "datapack") {
            Self::Datapack
        } else {
            Self::Unknown
        }
    }

    pub fn as_pandora(self) -> (r: Option<Loader>)
        ensures
            r == loader_as_pandora(self),
    {
        match self {
            ModrinthLoader::Fabric => Some(Loader::Fabric),
            ModrinthLoader::Forge => Some(Loader::Forge),
            ModrinthLoader::NeoForge => Some(Loader::NeoForge),
            ModrinthLoader::Minecraft => None,
            ModrinthLoader::Iris => None,
            ModrinthLoader::Optifine => None,
            ModrinthLoader::Canvas => None,
            ModrinthLoader::Datapack => None,
            ModrinthLoader::Unknown => None,
        }
    }
}

/// Where each kind of content goes: exactly the loaders the launcher can install put
/// their content into `mods`; exactly the shader loaders Iris and OptiFine into
/// `shaderpacks`; the vanilla resource pack format and Canvas into `resourcepacks`;
/// data packs into the world's `datapacks`; only an unknown loader has no directory.
pub proof fn law_install_directories(loader: ModrinthLoader)
    ensures
        loader_install_directory(loader) == Some("mods"@) <==> loader_as_pandora(loader) is Some,
        loader_install_directory(loader) == Some("shaderpacks"@) <==> (loader
            == ModrinthLoader::Iris || loader == ModrinthLoader::Optifine),
        loader_install_directory(loader) == Some("resourcepacks"@) <==> (loader
            == ModrinthLoader::Minecraft || loader == ModrinthLoader::Canvas),
        loader_install_directory(loader) == Some("saves/World/datapacks"@) <==> loader
            == ModrinthLoader::Datapack,
        loader_install_directory(loader) is None <==> loader == ModrinthLoader::Unknown,
{
    reveal_strlit("mods");
    reveal_strlit("shaderpacks");
    reveal_strlit("resourcepacks");
    reveal_strlit("saves/World/datapacks");
    assert("mods"@.len() != "shaderpacks"@.len());
    assert("mods"@.len() != "resourcepacks"@.len());
    assert("mods"@.len() != "saves/World/datapacks"@.len());
    assert("shaderpacks"@.len() != "resourcepacks"@.len());
    assert("shaderpacks"@.len() != "saves/World/datapacks"@.len());
    assert("resourcepacks"@.len() != "saves/World/datapacks"@.len());
}

/// A loader's identifier, and its display name, name that loader again.
pub proof fn law_loader_names_round_trip(loader: ModrinthLoader)
    requires
        loader != ModrinthLoader::Unknown,
    ensures
        loader_named(loader_id(loader)) == loader,
        loader_named(loader_pretty_name(loader)) == loader,
{
    reveal_strlit("Fabric");
    reveal_strlit("fabric");
    reveal_strlit("Forge");
    reveal_strlit("forge");
    reveal_strlit("NeoForge");
    reveal_strlit("neoforge");
    reveal_strlit("Minecraft");
    reveal_strlit("minecraft");
    reveal_strlit("Iris");
    reveal_strlit("iris");
    reveal_strlit("Optifine");
    reveal_strlit("optifine");
    reveal_strlit("Canvas");
    reveal_strlit("canvas");
    reveal_strlit("Datapack");
    reveal_strlit("datapack");
    assert("Fabric"@[0] == 'F' && "Fabric"@[1] == 'a');
    assert("fabric"@[0] == 'f' && "fabric"@[1] == 'a');
    assert("Forge"@[0] == 'F' && "Forge"@[1] == 'o');
    assert("forge"@[0] == 'f' && "forge"@[1] == 'o');
    assert("NeoForge"@[0] == 'N' && "NeoForge"@[1] == 'e');
    assert("neoforge"@[0] == 'n' && "neoforge"@[1] == 'e');
    assert("Minecraft"@[0] == 'M' && "Minecraft"@[1] == 'i');
    assert("minecraft"@[0] == 'm' && "minecraft"@[1] == 'i');
    assert("Iris"@[0] == 'I' && "Iris"@[1] == 'r');
    assert("iris"@[0] == 'i' && "iris"@[1] == 'r');
    assert("Optifine"@[0] == 'O' && "Optifine"@[1] == 'p');
    assert("optifine"@[0] == 'o' && "optifine"@[1] == 'p');
    assert("Canvas"@[0] == 'C' && "Canvas"@[1] == 'a');
    assert("canvas"@[0] == 'c' && "canvas"@[1] == 'a');
    assert("Datapack"@[0] == 'D' && "Datapack"@[1] == 'a');
    assert("datapack"@[0] == 'd' && "datapack"@[1] == 'a');
}

#[derive(Debug, Copy, Clone, PartialEq, Eq, Structural)]
pub enum ModrinthVersionType {
    Release,
    Beta,
    Alpha,
    Other,
}

#[derive(Debug, Copy, Clone, PartialEq, Eq, Structural)]
pub enum ModrinthVersionStatus {
    Listed,
    Archived,
    Draft,
    Unlisted,
    Scheduled,
    Unknown,
}

#[derive(Debug, Clone, PartialEq, Eq)]
pub struct ModrinthFile {
    pub hashes: ModrinthHashes,
    pub url: Arc<str>,
    pub filename: Arc<str>,
    pub primary: bool,
    pub size: usize,
}

#[derive(Debug, Clone, PartialEq, Eq)]
pub struct ModrinthHashes {
    pub sha1: Arc<str>,
    pub sha512: Option<Arc<str>>,
}

#[derive(Debug, Clone)]
pub struct ModrinthVersionFileUpdateResult(pub ModrinthProjectVersion);

#[derive(Debug, Clone, Hash, PartialEq, Eq)]
pub struct ModrinthVersionsFromHashesRequest {
    pub hashes: Arc<[Arc<str>]>,
    pub algorithm: Arc<str>,
}

#[derive(Debug, Clone)]
pub struct ModrinthVersionsFromHashesResponse(
    pub std::collections::HashMap<Arc<str>, Option<ModrinthProjectVersion>>,
);

#[derive(Debug, Clone, Hash, PartialEq, Eq)]
pub struct ModrinthProjectsRequest {
    pub ids: Arc<[Arc<str>]>,
}

#[derive(Debug, Clone)]
pub struct ModrinthProjectsResponse(pub Arc<[ModrinthProjectResult]>);

#[derive(Debug, Clone, Hash, PartialEq, Eq, PartialOrd, Ord)]
pub struct ModrinthProjectRequest {
    pub project_id: Arc<str>,
}

#[derive(Debug, Clone)]
pub struct ModrinthProjectResult {
    pub id: Arc<str>,
    pub slug: Option<Arc<str>>,
    pub title: Option<Arc<str>>,
    pub description: Option<Arc<str>>,
    pub body: Option<Arc<str>>,
    pub project_type: ModrinthProjectType,
    pub downloads: u64,
    pub followers: usize,
    pub icon_url: Option<Arc<str>>,
    pub client_side: Option<ModrinthSideRequirement>,
    pub server_side: Option<ModrinthSideRequirement>,
    pub categories: Option<Arc<[Arc<str>]>>,
    pub additional_categories: Option<Arc<[Arc<str>]>>,
    pub game_versions: Option<Arc<[Arc<str>]>>,
    pub loaders: Option<Arc<[ModrinthLoader]>>,
    pub license: Option<ModrinthLicense>,
    pub source_url: Option<Arc<str>>,
    pub issues_url: Option<Arc<str>>,
    pub wiki_url: Option<Arc<str>>,
    pub discord_url: Option<Arc<str>>,
    pub gallery: Option<Arc<[ModrinthGalleryImage]>>,
    pub published: Option<Arc<str>>,
    pub updated: Option<Arc<str>>,
}

#[derive(Debug, Clone)]
pub struct ModrinthLicense {
    pub id: Arc<str>,
    pub name: Arc<str>,
    pub url: Option<Arc<str>>,
}

#[derive(Debug, Clone)]
pub struct ModrinthGalleryImage {
    pub url: Arc<str>,
    pub featured: bool,
    pub title: Option<Arc<str>>,
    pub description: Option<Arc<str>>,
}

} // verus!
