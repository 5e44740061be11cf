use std::sync::Arc;

use pandora_core::modrinth::{
    Loader, ModrinthLoader, ModrinthProjectType, ModrinthProjectVersion, ModrinthSearchIndex,
};

const LOADERS: [ModrinthLoader; 9] = [
    ModrinthLoader::Fabric,
    ModrinthLoader::Forge,
    ModrinthLoader::NeoForge,
    ModrinthLoader::Minecraft,
    ModrinthLoader::Iris,
    ModrinthLoader::Optifine,
    ModrinthLoader::Canvas,
    ModrinthLoader::Datapack,
    ModrinthLoader::Unknown,
];

#[test]
fn search_index_names() {
    assert_eq!(ModrinthSearchIndex::Relevance.as_str(), "relevance");
    assert_eq!(ModrinthSearchIndex::Downloads.as_str(), "downloads");
    assert_eq!(ModrinthSearchIndex::Follows.as_str(), "follows");
    assert_eq!(ModrinthSearchIndex::Newest.as_str(), "newest");
    assert_eq!(ModrinthSearchIndex::Updated.as_str(), "updated");
    assert_eq!(ModrinthSearchIndex::default(), ModrinthSearchIndex::Relevance);
}

#[test]
fn project_types() {
    assert_eq!(ModrinthProjectType::Resourcepack.as_str(), "resourcepack");
    assert_eq!(ModrinthProjectType::Other.as_str(), "other");
    assert!(ModrinthProjectType::Mod.mod_or_modpack());
    assert!(ModrinthProjectType::Modpack.mod_or_modpack());
    assert!(!ModrinthProjectType::Shader.mod_or_modpack());
    assert_eq!(ModrinthProjectType::default(), ModrinthProjectType::Other);
}

#[test]
fn loader_names_round_trip() {
    for loader in LOADERS {
        assert_eq!(ModrinthLoader::from_name(loader.id()), loader);
        assert_eq!(ModrinthLoader::from_name(loader.pretty_name()), loader);
    }
    assert_eq!(ModrinthLoader::from_name("FABRIC"), ModrinthLoader::Unknown);
    assert_eq!(ModrinthLoader::from_name(""), ModrinthLoader::Unknown);
    assert_eq!(ModrinthLoader::NeoForge.id(), "neoforge");
    assert_eq!(ModrinthLoader::NeoForge.pretty_name(), "NeoForge");
}

#[test]
fn loader_install_directories() {
    assert_eq!(ModrinthLoader::Forge.install_directory(), Some("mods"));
    assert_eq!(ModrinthLoader::Minecraft.install_directory(), Some("resourcepacks"));
    assert_eq!(ModrinthLoader::Canvas.install_directory(), Some("resourcepacks"));
    assert_eq!(ModrinthLoader::Iris.install_directory(), Some("shaderpacks"));
    assert_eq!(ModrinthLoader::Datapack.install_directory(), Some("saves/World/datapacks"));
    assert_eq!(ModrinthLoader::Unknown.install_directory(), None);
}

#[test]
fn only_mod_loaders_are_launcher_loaders() {
    assert_eq!(ModrinthLoader::Fabric.as_pandora(), Some(Loader::Fabric));
    assert_eq!(ModrinthLoader::Forge.as_pandora(), Some(Loader::Forge));
    assert_eq!(ModrinthLoader::NeoForge.as_pandora(), Some(Loader::NeoForge));
    for loader in &LOADERS[3..] {
        assert_eq!(loader.as_pandora(), None);
    }
}

fn version(id: &str, name: &str) -> ModrinthProjectVersion {
    ModrinthProjectVersion {
        game_versions: None,
        loaders: None,
        id: Arc::from(id),
        project_id: Arc::from("project"),
        name: Some(Arc::from(name)),
        version_number: None,
        dependencies: None,
        version_type: None,
        status: None,
        files: Arc::from(Vec::new()),
    }
}

#[test]
fn versions_are_equal_when_their_ids_are() {
    assert_eq!(version("abc", "first"), version("abc", "second"));
    assert_ne!(version("abc", "first"), version("abd", "first"));
}
