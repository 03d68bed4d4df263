//! Cursors: the shape that the window shows over what is hovered.

use vstd::prelude::*;

verus! {

/// A cursor that the system provides.
#[derive(Debug, Clone, Copy, PartialEq, Eq, Structural)]
pub enum SystemCursor {
    Default,
    Pointer,
    NotAllowed,
    Text,
    Crosshair,
    /// Any other, by its number.
    Other(u32),
}

/// The cursor of an entity.
#[derive(Debug, Clone, Copy, PartialEq, Eq, Structural)]
pub enum EntityCursor {
    /// An image, by the key of its asset.
    Custom(u128),
    /// One that the system provides.
    System(SystemCursor),
}

/// The cursor of a window.
#[derive(Debug, Clone, Copy, PartialEq, Eq, Structural)]
pub enum CursorIcon {
    Custom(u128),
    System(SystemCursor),
}

/// The window cursor of an entity's cursor.
pub open spec fn icon_of(cursor: EntityCursor) -> CursorIcon {
    match cursor {
        EntityCursor::Custom(image) => CursorIcon::Custom(image),
        EntityCursor::System(icon) => CursorIcon::System(icon),
    }
}

impl EntityCursor {
    /// Converts to the cursor of a window.
    pub fn to_cursor_icon(&self) -> (icon: CursorIcon)
        ensures
            icon == icon_of(*self),
    {
        match self {
            EntityCursor::Custom(image) => CursorIcon::Custom(*image),
            EntityCursor::System(icon) => CursorIcon::System(*icon),
        }
    }

    /// Compares with the cursor of a window.
    pub fn eq_cursor_icon(&self, cursor_icon: &CursorIcon) -> (same: bool)
        ensures
            same == (icon_of(*self) == *cursor_icon),
    {
        match (self, cursor_icon) {
            (EntityCursor::Custom(image), CursorIcon::Custom(other)) => *image == *other,
            (EntityCursor::System(icon), CursorIcon::System(other)) => *icon == *other,
            _ => false,
        }
    }
}

impl Default for EntityCursor {
    fn default() -> (cursor: EntityCursor)
        ensures
            cursor == EntityCursor::System(SystemCursor::Default),
    {
        EntityCursor::System(SystemCursor::Default)
    }
}

/// The first cursor of an entity or of its ancestors, nearest first.
pub open spec fn first_cursor(chain: Seq<Option<EntityCursor>>) -> Option<EntityCursor>
    decreases chain.len(),
{
    if chain.len() == 0 {
        None
    } else if chain[0] is Some {
        chain[0]
    } else {
        first_cursor(chain.skip(1))
    }
}

/// The first cursor of the hovered entities.
pub open spec fn hovered_cursor(chains: Seq<Vec<Option<EntityCursor>>>) -> Option<EntityCursor>
    decreases chains.len(),
{
    if chains.len() == 0 {
        None
    } else if first_cursor(chains[0]@) is Some {
        first_cursor(chains[0]@)
    } else {
        hovered_cursor(chains.skip(1))
    }
}

/// The cursor that the windows show: the override, else that of what is
/// hovered, else the default.
pub open spec fn chosen_cursor(
    overriding: Option<EntityCursor>,
    chains: Seq<Vec<Option<EntityCursor>>>,
    default: EntityCursor,
) -> EntityCursor {
    match overriding {
        Some(cursor) => cursor,
        None => match hovered_cursor(chains) {
            Some(cursor) => cursor,
            None => default,
        },
    }
}

fn find_cursor(chain: &Vec<Option<EntityCursor>>) -> (cursor: Option<EntityCursor>)
    ensures
        cursor == first_cursor(chain@),
{
    let count: usize = chain.len();
    let mut i: usize = 0;
    proof {
        assert(chain@.skip(0) =~= chain@);
    }
    while i < count
        invariant
            i <= count,
            count == chain@.len(),
            first_cursor(chain@) == first_cursor(chain@.skip(i as int)),
        decreases count - i,
    {
        proof {
            assert(chain@.skip(i as int).skip(1) =~= chain@.skip(i + 1));
        }
        if let Some(cursor) = chain[i] {
            return Some(cursor);
        }
        i = i + 1;
    }
    None
}

/// Whether a window has to be given an icon.
pub open spec fn has_to_change(icon: CursorIcon, window: Option<CursorIcon>) -> bool {
    window != Some(icon)
}

/// What windows show once those that have to change are given the icon.
pub open spec fn windows_after(icon: CursorIcon, windows: Seq<Option<CursorIcon>>) -> Seq<
    Option<CursorIcon>,
> {
    windows.map_values(
        |window: Option<CursorIcon>|
            if has_to_change(icon, window) {
                Some(icon)
            } else {
                window
            },
    )
}

/// Chooses the cursor of the windows and tells of each whether it has to change.
/// `chains` holds, for each hovered entity, its own cursor and those of its
/// ancestors.
pub fn update_cursor(
    overriding: Option<EntityCursor>,
    chains: &Vec<Vec<Option<EntityCursor>>>,
    default: EntityCursor,
    windows: &Vec<Option<CursorIcon>>,
) -> (update: (CursorIcon, Vec<bool>))
    ensures
        update.0 == icon_of(chosen_cursor(overriding, chains@, default)),
        update.1@.len() == windows@.len(),
        forall|w: int|
            0 <= w < windows@.len() ==> #[trigger] update.1@[w] == has_to_change(
                update.0,
                windows@[w],
            ),
{
    let cursor = match overriding {
        Some(cursor) => cursor,
        None => {
            let mut found: Option<EntityCursor> = None;
            let count: usize = chains.len();
            let mut i: usize = 0;
            proof {
                assert(chains@.skip(0) =~= chains@);
            }
            while i < count && found.is_none()
                invariant
                    i <= count,
                    count == chains@.len(),
                    hovered_cursor(chains@) == if found is Some {
                        found
                    } else {
                        hovered_cursor(chains@.skip(i as int))
                    },
                decreases count - i,
            {
                proof {
                    assert(chains@.skip(i as int).skip(1) =~= chains@.skip(i + 1));
                }
                found = find_cursor(&chains[i]);
                i = i + 1;
            }
            match found {
                Some(cursor) => cursor,
                None => default,
            }
        },
    };
    let icon = cursor.to_cursor_icon();
    let mut changes: Vec<bool> = Vec::new();
    let total: usize = windows.len();
    let mut w: usize = 0;
    while w < total
        invariant
            w <= total,
            total == windows@.len(),
            icon == icon_of(cursor),
            changes@.len() == w,
            forall|v: int|
                0 <= v < w ==> #[trigger] changes@[v] == has_to_change(icon, windows@[v]),
        decreases total - w,
    {
        let same = match &windows[w] {
            Some(previous) => cursor.eq_cursor_icon(previous),
            None => false,
        };
        changes.push(!same);
        w = w + 1;
    }
    (icon, changes)
}

/// Once the windows have taken what changes, they all show the icon, and a
/// further update changes nothing.
pub proof fn law_cursor_settles(icon: CursorIcon, windows: Seq<Option<CursorIcon>>)
    ensures
        windows_after(icon, windows).len() == windows.len(),
        forall|w: int|
            0 <= w < windows.len() ==> #[trigger] windows_after(icon, windows)[w] == Some(icon)
                && !has_to_change(icon, windows_after(icon, windows)[w]),
        windows_after(icon, windows_after(icon, windows)) == windows_after(icon, windows),
{
}

/// Changes the cursor by what is hovered.
#[derive(Debug, Clone, Copy, PartialEq, Eq, Structural)]
pub struct CursorIconPlugin;

impl CursorIconPlugin {
    /// Whether the default and the override have to be set up: not where a
    /// default is there already.
    pub fn sets_up(&self, has_default: bool) -> (yes: bool)
        ensures
            yes == !has_default,
    {
        !has_default
    }
}

} // verus!
