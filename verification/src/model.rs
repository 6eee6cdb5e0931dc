//! The data model shared by the two reducers: entities, widget ids,
//! the list-root registry, interaction events and mutation commands.

use vstd::prelude::*;

verus! {

/// Stable opaque id of an addressable UI element (container, label,
/// text input, button) in the host's UI tree.
pub type WidgetId = u64;

/// Stable id of a domain entity in the simulated world.
pub type EntityId = u64;

/// Classification of a domain entity, routing it to the matching UI list.
#[derive(Clone, Copy, PartialEq, Eq, Structural, Debug)]
pub enum Category {
    Character,
    Item,
}

impl Category {
    /// The one other category.
    pub open spec fn other(self) -> Category {
        match self {
            Category::Character => Category::Item,
            Category::Item => Category::Character,
        }
    }
}

/// A domain entity observed as newly created, as the world model delivers
/// it: immutable once created, tagged with the category that routes it.
#[derive(Clone, Debug)]
pub struct DisplayEntity {
    pub id: EntityId,
    pub display_name: String,
    pub category: Category,
}

/// Mathematical image of a [`DisplayEntity`]: the display name as a
/// sequence of characters.
pub struct EntityView {
    pub id: EntityId,
    pub display_name: Seq<char>,
    pub category: Category,
}

impl View for DisplayEntity {
    type V = EntityView;

    open spec fn view(&self) -> EntityView {
        EntityView { id: self.id, display_name: self.display_name@, category: self.category }
    }
}

/// The per-category list-root registry, populated once during setup by the
/// layout collaborator. A category whose list has not been created yet has
/// no root and its entities are skipped.
#[derive(Clone, Copy, PartialEq, Eq, Structural, Debug)]
pub struct RootRegistry {
    pub character_root: Option<WidgetId>,
    pub item_root: Option<WidgetId>,
}

impl RootRegistry {
    /// The container registered for category `c`, if any.
    pub open spec fn spec_root_of(self, c: Category) -> Option<WidgetId> {
        match c {
            Category::Character => self.character_root,
            Category::Item => self.item_root,
        }
    }

    /// Looks up the container registered for category `c`.
    pub fn root_of(&self, c: Category) -> (r: Option<WidgetId>)
        ensures
            r == self.spec_root_of(c),
    {
        match c {
            Category::Character => self.character_root,
            Category::Item => self.item_root,
        }
    }
}

/// Command to the layout collaborator: append a fresh text label as the
/// last child of `parent`, at the fixed label style.
#[derive(Debug)]
pub struct AppendChildCommand {
    pub parent: WidgetId,
    pub label: String,
    pub font_size: u64,
}

/// Mathematical image of an [`AppendChildCommand`].
pub struct AppendCmdView {
    pub parent: WidgetId,
    pub label: Seq<char>,
    pub font_size: u64,
}

impl View for AppendChildCommand {
    type V = AppendCmdView;

    open spec fn view(&self) -> AppendCmdView {
        AppendCmdView { parent: self.parent, label: self.label@, font_size: self.font_size }
    }
}

/// Interaction state of a widget as the input collaborator reports it.
/// `Idle` carries "no interaction" through a tick without signalling a
/// focus change.
#[derive(Clone, Copy, PartialEq, Eq, Structural, Debug)]
pub enum Interaction {
    Idle,
    Hovered,
    Pressed,
}

/// One "interaction state changed" notice for one widget, delivered per
/// tick, consumed once, never persisted.
#[derive(Clone, Copy, PartialEq, Eq, Structural, Debug)]
pub struct InteractionEvent {
    pub widget_id: WidgetId,
    pub state: Interaction,
}

/// A widget that can hold keyboard focus, with its current active flag.
/// The registry of these is fixed for the process lifetime.
#[derive(Clone, Copy, PartialEq, Eq, Structural, Debug)]
pub struct FocusableWidget {
    pub id: WidgetId,
    pub active: bool,
}

/// Command to the input collaborator: mark one focusable widget as
/// accepting keystrokes, or not.
#[derive(Clone, Copy, PartialEq, Eq, Structural, Debug)]
pub struct SetActiveCommand {
    pub widget: WidgetId,
    pub active: bool,
}

} // verus!
