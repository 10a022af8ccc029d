use vstd::prelude::*;

verus! {

/// How strongly a hoverable or selectable piece glows.
#[derive(Debug, Clone, Copy, PartialEq, Eq, Structural)]
pub enum EmissiveLevel {
    /// Selected and hovered: the selected glow, boosted again.
    SelectedHovered,
    /// Selected only.
    Selected,
    /// Hovered only: half of the selected glow.
    Hovered,
    /// Neither: no glow.
    Off,
}

/// The glow a piece gets from whether it is selected and whether it is hovered.
pub fn emissive_level(is_selected: bool, is_hovered: bool) -> (level: EmissiveLevel)
    ensures
        is_selected && is_hovered ==> level == EmissiveLevel::SelectedHovered,
        is_selected && !is_hovered ==> level == EmissiveLevel::Selected,
        !is_selected && is_hovered ==> level == EmissiveLevel::Hovered,
        !is_selected && !is_hovered ==> level == EmissiveLevel::Off,
{
    match (is_selected, is_hovered) {
        (true, true) => EmissiveLevel::SelectedHovered,
        (true, false) => EmissiveLevel::Selected,
        (false, true) => EmissiveLevel::Hovered,
        (false, false) => EmissiveLevel::Off,
    }
}

/// What highlighting a piece does.
#[derive(Debug, Clone, Copy, PartialEq, Eq, Structural)]
pub struct HighlightStep {
    /// Remember the piece's own glow first, so that it can be restored.
    pub record_original: bool,
    /// The glow to give the piece, when it has a material.
    pub level: Option<EmissiveLevel>,
}

/// Highlighting a piece remembers its own glow the first time (when it has a
/// material and none is remembered yet), then sets the glow for its state.
pub fn highlight_step(has_material: bool, has_original: bool, is_selected: bool, is_hovered: bool) -> (step: HighlightStep)
    ensures
        step == highlight_step_spec(has_material, has_original, is_selected, is_hovered),
        step.record_original == (has_material && !has_original),
        has_material ==> step.level == Some(emissive_level_spec(is_selected, is_hovered)),
        !has_material ==> step.level is None,
{
    let level = if has_material {
        Some(emissive_level(is_selected, is_hovered))
    } else {
        None
    };
    HighlightStep { record_original: has_material && !has_original, level }
}

/// The step [`highlight_step`] takes.
pub open spec fn highlight_step_spec(
    has_material: bool,
    has_original: bool,
    is_selected: bool,
    is_hovered: bool,
) -> HighlightStep {
    HighlightStep {
        record_original: has_material && !has_original,
        level: if has_material {
            Some(emissive_level_spec(is_selected, is_hovered))
        } else {
            None
        },
    }
}

/// The glow for a selected/hovered state (see [`emissive_level`]).
pub open spec fn emissive_level_spec(is_selected: bool, is_hovered: bool) -> EmissiveLevel {
    if is_selected && is_hovered {
        EmissiveLevel::SelectedHovered
    } else if is_selected {
        EmissiveLevel::Selected
    } else if is_hovered {
        EmissiveLevel::Hovered
    } else {
        EmissiveLevel::Off
    }
}

/// What ending the hover over a piece does.
#[derive(Debug, Clone, Copy, PartialEq, Eq, Structural)]
pub enum RestoreStep {
    /// The piece stays selected: drop back to the selected glow.
    KeepSelectedGlow,
    /// Give the piece back its own glow and forget it.
    RestoreOriginal,
}

/// A selected piece keeps its selected glow; any other gets its own glow back.
pub fn restore_step(is_selected: bool) -> (step: RestoreStep)
    ensures
        step == restore_step_spec(is_selected),
        is_selected ==> step == RestoreStep::KeepSelectedGlow,
        !is_selected ==> step == RestoreStep::RestoreOriginal,
{
    if is_selected {
        RestoreStep::KeepSelectedGlow
    } else {
        RestoreStep::RestoreOriginal
    }
}

/// The step [`restore_step`] takes.
pub open spec fn restore_step_spec(is_selected: bool) -> RestoreStep {
    if is_selected {
        RestoreStep::KeepSelectedGlow
    } else {
        RestoreStep::RestoreOriginal
    }
}

/// The glow of a piece with a material: the glow it shows, and its own glow
/// while that is remembered.
#[derive(Debug, Clone, Copy)]
pub struct Glow<T> {
    pub emissive: T,
    pub original: Option<T>,
}

/// The glow after a highlight step, `lit` being the glow of the step's level.
pub open spec fn highlighted_spec<T>(g: Glow<T>, step: HighlightStep, lit: T) -> Glow<T> {
    Glow {
        emissive: if step.level is Some {
            lit
        } else {
            g.emissive
        },
        original: if step.record_original {
            Some(g.emissive)
        } else {
            g.original
        },
    }
}

/// The glow after a restore step, `selected_glow` being the selected level's
/// glow: a selected piece drops back to it and keeps what it remembers; any
/// other gets its remembered glow back (or keeps its glow if none is
/// remembered) and forgets it.
pub open spec fn restored_spec<T>(g: Glow<T>, step: RestoreStep, selected_glow: T) -> Glow<T> {
    match step {
        RestoreStep::KeepSelectedGlow => Glow { emissive: selected_glow, original: g.original },
        RestoreStep::RestoreOriginal => Glow {
            emissive: match g.original {
                Some(o) => o,
                None => g.emissive,
            },
            original: None,
        },
    }
}

impl<T: Copy> Glow<T> {
    /// Applies a highlight step: remembers the current glow if the step says
    /// so, then shows `lit` if the step sets a level.
    pub fn highlighted(&self, step: HighlightStep, lit: T) -> (g: Glow<T>)
        ensures
            g == highlighted_spec(*self, step, lit),
            step.level is Some ==> g.emissive == lit,
            step.level is None ==> g.emissive == self.emissive,
            step.record_original ==> g.original == Some(self.emissive),
            !step.record_original ==> g.original == self.original,
    {
        let original = if step.record_original {
            Some(self.emissive)
        } else {
            self.original
        };
        let emissive = match step.level {
            Some(_) => lit,
            None => self.emissive,
        };
        Glow { emissive, original }
    }

    /// Applies a restore step (see [`restored_spec`]).
    pub fn restored(&self, step: RestoreStep, selected_glow: T) -> (g: Glow<T>)
        ensures
            g == restored_spec(*self, step, selected_glow),
            step == RestoreStep::KeepSelectedGlow ==> g.emissive == selected_glow && g.original
                == self.original,
            step == RestoreStep::RestoreOriginal ==> g.original is None && (self.original matches Some(
                o,
            ) ==> g.emissive == o) && (self.original is None ==> g.emissive == self.emissive),
    {
        match step {
            RestoreStep::KeepSelectedGlow => Glow { emissive: selected_glow, original: self.original },
            RestoreStep::RestoreOriginal => {
                let emissive = match self.original {
                    Some(o) => o,
                    None => self.emissive,
                };
                Glow { emissive, original: None }
            },
        }
    }
}

/// A highlight shows the glow of the step's level whenever the step sets
/// one, whether or not the piece's own glow is remembered already, and
/// leaves the glow alone otherwise; it remembers the glow shown before
/// exactly when the step says so, and otherwise keeps what was remembered.
pub proof fn law_highlight_shows_level<T>(g: Glow<T>, step: HighlightStep, lit: T)
    ensures
        step.level is Some ==> highlighted_spec(g, step, lit).emissive == lit,
        step.level is None ==> highlighted_spec(g, step, lit).emissive == g.emissive,
        step.record_original ==> highlighted_spec(g, step, lit).original == Some(g.emissive),
        !step.record_original ==> highlighted_spec(g, step, lit).original == g.original,
{
}

/// Hovering over a piece with a material and then ending the hover: a piece
/// that is not selected ends with the glow it had of its own (the remembered
/// one, if any) and remembers nothing; a selected piece ends with the
/// selected glow and still remembers its own glow.
pub proof fn law_hover_round_trip<T>(g: Glow<T>, lit: T, selected_glow: T)
    ensures
        restored_spec(
            highlighted_spec(g, highlight_step_spec(true, g.original is Some, false, true), lit),
            restore_step_spec(false),
            selected_glow,
        ) == (Glow {
            emissive: match g.original {
                Some(o) => o,
                None => g.emissive,
            },
            original: None::<T>,
        }),
        restored_spec(
            highlighted_spec(g, highlight_step_spec(true, g.original is Some, true, true), lit),
            restore_step_spec(true),
            selected_glow,
        ) == (Glow {
            emissive: selected_glow,
            original: Some(
                match g.original {
                    Some(o) => o,
                    None => g.emissive,
                },
            ),
        }),
{
}

/// The pieces a class keeps track of (as entity bits): its horizontal beam,
/// and the bottom connector and collapse sphere that exist only while it
/// has subclasses.
#[derive(Debug, Clone, Copy, PartialEq, Eq, Structural)]
pub struct ClassData {
    pub beam_entity: u64,
    pub bottom_beam_entity: Option<u64>,
    pub collapse_sphere_entity: Option<u64>,
}

/// What to do with a class's bottom connector when its subclasses change.
#[derive(Debug, Clone, Copy, PartialEq, Eq, Structural)]
pub enum LeafVisualAction {
    /// It gained subclasses: spawn the bottom beam and the collapse sphere.
    SpawnConnector,
    /// It lost them all: despawn the bottom beam and the sphere, if any.
    RemoveConnector { bottom_beam: u64, sphere: Option<u64> },
    /// It is already in the right state.
    Keep,
}

/// The connector change for a class with class data `data`, which now has
/// subclasses exactly when `has_children`: spawn when it gained them, remove
/// when it lost them, else keep.
pub open spec fn leaf_visual_action_spec(has_children: bool, data: ClassData) -> LeafVisualAction {
    if has_children && data.bottom_beam_entity is None {
        LeafVisualAction::SpawnConnector
    } else if !has_children && data.bottom_beam_entity is Some {
        LeafVisualAction::RemoveConnector {
            bottom_beam: data.bottom_beam_entity.unwrap(),
            sphere: data.collapse_sphere_entity,
        }
    } else {
        LeafVisualAction::Keep
    }
}

/// The connector change for a class (see [`leaf_visual_action_spec`]).
pub fn leaf_visual_action(has_children: bool, data: &ClassData) -> (action: LeafVisualAction)
    ensures
        action == leaf_visual_action_spec(has_children, *data),
{
    match (has_children, data.bottom_beam_entity) {
        (true, None) => LeafVisualAction::SpawnConnector,
        (false, Some(bottom_beam)) => LeafVisualAction::RemoveConnector {
            bottom_beam,
            sphere: data.collapse_sphere_entity,
        },
        _ => LeafVisualAction::Keep,
    }
}

impl ClassData {
    /// Class data for a class that has just been drawn: only its horizontal beam.
    pub fn new(beam_entity: u64) -> (d: ClassData)
        ensures
            d.beam_entity == beam_entity,
            d.bottom_beam_entity is None,
            d.collapse_sphere_entity is None,
    {
        ClassData { beam_entity, bottom_beam_entity: None, collapse_sphere_entity: None }
    }

    /// The class data after `action`, where a spawned connector got the
    /// entities `spawned` (bottom beam, sphere).
    pub fn after(&self, action: LeafVisualAction, spawned: (u64, u64)) -> (d: ClassData)
        ensures
            d == after_spec(*self, action, spawned),
            action == LeafVisualAction::Keep ==> d == *self,
            d.beam_entity == self.beam_entity,
            (self.collapse_sphere_entity is Some == self.bottom_beam_entity is Some) ==> (
            d.collapse_sphere_entity is Some == d.bottom_beam_entity is Some),
    {
        match action {
            LeafVisualAction::SpawnConnector => ClassData {
                beam_entity: self.beam_entity,
                bottom_beam_entity: Some(spawned.0),
                collapse_sphere_entity: Some(spawned.1),
            },
            LeafVisualAction::RemoveConnector { .. } => ClassData {
                beam_entity: self.beam_entity,
                bottom_beam_entity: None,
                collapse_sphere_entity: None,
            },
            LeafVisualAction::Keep => *self,
        }
    }
}

/// The class data after a connector action.
pub open spec fn after_spec(d: ClassData, action: LeafVisualAction, spawned: (u64, u64)) -> ClassData {
    match action {
        LeafVisualAction::SpawnConnector => ClassData {
            beam_entity: d.beam_entity,
            bottom_beam_entity: Some(spawned.0),
            collapse_sphere_entity: Some(spawned.1),
        },
        LeafVisualAction::RemoveConnector { .. } => ClassData {
            beam_entity: d.beam_entity,
            bottom_beam_entity: None,
            collapse_sphere_entity: None,
        },
        LeafVisualAction::Keep => d,
    }
}

/// After the connector action for a class, the class has a bottom connector
/// exactly when it has subclasses, and its horizontal beam is unchanged.
pub proof fn law_connector_follows_subclasses(
    has_children: bool,
    data: ClassData,
    action: LeafVisualAction,
    spawned: (u64, u64),
)
    requires
        action == leaf_visual_action_spec(has_children, data),
    ensures
        after_spec(data, action, spawned).bottom_beam_entity is Some == has_children,
        after_spec(data, action, spawned).beam_entity == data.beam_entity,
{
}

/// Keeping a class's connector leaves its class data as it is; and a class
/// that has a collapse sphere exactly when it has a bottom connector still
/// does after any connector action, a spawned connector getting the spawned
/// entities.
pub proof fn law_connector_keeps_its_sphere(data: ClassData, action: LeafVisualAction, spawned: (u64, u64))
    ensures
        action == LeafVisualAction::Keep ==> after_spec(data, action, spawned) == data,
        (data.collapse_sphere_entity is Some == data.bottom_beam_entity is Some) ==> (after_spec(
            data,
            action,
            spawned,
        ).collapse_sphere_entity is Some == after_spec(data, action, spawned).bottom_beam_entity is Some),
        action == LeafVisualAction::SpawnConnector ==> after_spec(data, action, spawned).bottom_beam_entity
            == Some(spawned.0) && after_spec(data, action, spawned).collapse_sphere_entity == Some(
            spawned.1,
        ),
{
}


/// Whether a class's subclasses are folded away.
#[derive(Debug, Clone, Copy, PartialEq, Eq, Structural)]
pub struct Collapsed(pub bool);

/// Lets a clicked collapse sphere find the class (its entity bits) it folds.
#[derive(Debug, Clone, Copy, PartialEq, Eq, Structural)]
pub struct CollapseOnClick {
    pub class_entity: u64,
}

impl Collapsed {
    /// The flag after a click on the class's collapse sphere.
    pub fn toggled(&self) -> (c: Collapsed)
        ensures
            c.0 == !self.0,
    {
        Collapsed(!self.0)
    }
}

} // verus!
