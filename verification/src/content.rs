//! The kinds of content an instance holds, and how each kind may be sorted.
use vstd::prelude::*;

use crate::interface_config::{CurseforgeClassId, InstanceContentSortKey};
use crate::modrinth::ModrinthProjectType;

verus! {

/// A kind of content an instance holds.
#[derive(Debug, Clone, Copy, PartialEq, Eq, Structural)]
pub enum ContentType {
    Mods,
    ResourcePacks,
    Shaders,
}

/// The sort keys that make sense for a kind of content: mods know their names and
/// ids; packs and shaders only their files.
pub open spec fn sort_modes(t: ContentType) -> Seq<InstanceContentSortKey> {
    match t {
        ContentType::Mods => seq![
            InstanceContentSortKey::Name,
            InstanceContentSortKey::ModId,
            InstanceContentSortKey::Filename,
            InstanceContentSortKey::ModifiedTime,
            InstanceContentSortKey::FileSize,
        ],
        _ => seq![
            InstanceContentSortKey::Filename,
            InstanceContentSortKey::ModifiedTime,
            InstanceContentSortKey::FileSize,
        ],
    }
}

impl ContentType {
    /// The Modrinth project type of this kind of content.
    pub fn modrinth_project_type(self) -> (r: ModrinthProjectType)
        ensures
            r == (match self {
                ContentType::Mods => ModrinthProjectType::Mod,
                ContentType::ResourcePacks => ModrinthProjectType::Resourcepack,
                ContentType::Shaders => ModrinthProjectType::Shader,
            }),
    {
        match self {
            ContentType::Mods => ModrinthProjectType::Mod,
            ContentType::ResourcePacks => ModrinthProjectType::Resourcepack,
            ContentType::Shaders => ModrinthProjectType::Shader,
        }
    }

    /// The CurseForge class of this kind of content.
    pub fn curseforge_class_id(self) -> (r: CurseforgeClassId)
        ensures
            r == (match self {
                ContentType::Mods => CurseforgeClassId::Mod,
                ContentType::ResourcePacks => CurseforgeClassId::Resourcepack,
                ContentType::Shaders => CurseforgeClassId::Shader,
            }),
    {
        match self {
            ContentType::Mods => CurseforgeClassId::Mod,
            ContentType::ResourcePacks => CurseforgeClassId::Resourcepack,
            ContentType::Shaders => CurseforgeClassId::Shader,
        }
    }

    /// The sort keys offered for this kind of content, in the order they are listed.
    pub fn valid_sort_modes(self) -> (r: Vec<InstanceContentSortKey>)
        ensures
            r@ == sort_modes(self),
    {
        match self {
            ContentType::Mods => vec![
                InstanceContentSortKey::Name,
                InstanceContentSortKey::ModId,
                InstanceContentSortKey::Filename,
                InstanceContentSortKey::ModifiedTime,
                InstanceContentSortKey::FileSize,
            ],
            ContentType::ResourcePacks | ContentType::Shaders => vec![
                InstanceContentSortKey::Filename,
                InstanceContentSortKey::ModifiedTime,
                InstanceContentSortKey::FileSize,
            ],
        }
    }

    /// The sort key the content list opens with: the stored key where it is offered for
    /// this kind of content, else the first key offered.
    pub fn effective_sort_key(self, stored: InstanceContentSortKey) -> (r: InstanceContentSortKey)
        ensures
            r == (if sort_modes(self).contains(stored) {
                stored
            } else {
                sort_modes(self)[0]
            }),
    {
        let modes = self.valid_sort_modes();
        if Self::offers(&modes, stored) {
            stored
        } else {
            modes[0]
        }
    }

    fn offers(modes: &Vec<InstanceContentSortKey>, key: InstanceContentSortKey) -> (r: bool)
        ensures
            r == modes@.contains(key),
    {
        let mut i: usize = 0;
        while i < modes.len()
            invariant
                i <= modes@.len(),
                forall|j: int| 0 <= j < i ==> modes@[j] != key,
            decreases modes@.len() - i,
        {
            if modes[i] == key {
                assert(modes@[i as int] == key);
                return true;
            }
            i += 1;
        }
        false
    }
}

} // verus!
