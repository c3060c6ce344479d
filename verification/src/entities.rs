//! Display components carried by entities and synchronized to clients:
//! a name tag and a skin.

use vstd::prelude::*;

verus! {

/// The visible name tag of an entity.
#[derive(Clone, PartialEq, Debug)]
pub struct EntityTagData {
    pub name: String,
    pub color: Option<String>,
    pub background: Option<String>,
    pub font_size: Option<u32>,
}

impl EntityTagData {
    pub fn create(
        name: String,
        color: Option<String>,
        background: Option<String>,
        font_size: Option<u32>,
    ) -> (r: EntityTagData)
        ensures
            r == (EntityTagData { name, color, background, font_size }),
    {
        EntityTagData { name, color, background, font_size }
    }
}

/// A name-tag component.
#[derive(Clone, PartialEq, Debug)]
pub struct EntityTagComponent {
    pub tag: EntityTagData,
}

impl EntityTagComponent {
    pub fn create(tag: EntityTagData) -> (r: EntityTagComponent)
        ensures
            r == (EntityTagComponent { tag }),
    {
        EntityTagComponent { tag }
    }
}

/// What an entity looks like: a fixed model resource, or nothing yet.
#[derive(Clone, PartialEq, Debug)]
pub enum EntitySkinData {
    Fixed { resource: String },
    Generic,
}

/// A skin component.
#[derive(Clone, PartialEq, Debug)]
pub struct EntitySkinComponent {
    pub skin: EntitySkinData,
}

impl EntitySkinComponent {
    pub fn create(skin: EntitySkinData) -> (r: EntitySkinComponent)
        ensures
            r == (EntitySkinComponent { skin }),
    {
        EntitySkinComponent { skin }
    }
}

/// A component to attach at spawn.
pub enum EntityComponent {
    Tag(Option<EntityTagComponent>),
    Skin(Option<EntitySkinComponent>),
}

/// The tag a component list settles on: the last tag entry wins, and a
/// list without one leaves no tag.
pub open spec fn spec_last_tag(cs: Seq<EntityComponent>) -> Option<EntityTagComponent>
    decreases cs.len(),
{
    if cs.len() == 0 {
        None
    } else {
        match cs.last() {
            EntityComponent::Tag(t) => t,
            EntityComponent::Skin(s) => spec_last_tag(cs.drop_last()),
        }
    }
}

/// The skin a component list settles on: the last skin entry wins, and a
/// list without one leaves no skin.
pub open spec fn spec_last_skin(cs: Seq<EntityComponent>) -> Option<EntitySkinComponent>
    decreases cs.len(),
{
    if cs.len() == 0 {
        None
    } else {
        match cs.last() {
            EntityComponent::Skin(s) => s,
            EntityComponent::Tag(t) => spec_last_skin(cs.drop_last()),
        }
    }
}

} // verus!
