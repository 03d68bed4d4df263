//! What styles and cursors promise: each state has the token named after it, and
//! the nearest cursor counts.

use vstd::prelude::*;

use crate::widgets::cursor;
use crate::widgets::cursor::{CursorIcon, EntityCursor};
use crate::widgets::styles;
use crate::widgets::styles::{ButtonState, ButtonVariant, StyleToken};

verus! {

/// The tokens of a normal button are those named after its states.
pub proof fn law_normal_buttons_have_their_tokens(pressed: bool, hovered: bool)
    ensures
        ({
            let variant = ButtonVariant::Normal;
            &&& styles::background_of(variant, styles::state_of(true, pressed, hovered))
                == StyleToken::ButtonBgDisabled
            &&& styles::background_of(variant, styles::state_of(false, true, hovered))
                == StyleToken::ButtonBgPressed
            &&& styles::background_of(variant, styles::state_of(false, false, true))
                == StyleToken::ButtonBgHover
            &&& styles::background_of(variant, styles::state_of(false, false, false))
                == StyleToken::ButtonBg
            &&& styles::text_of(variant, true) == StyleToken::ButtonTextDisabled
            &&& styles::text_of(variant, false) == StyleToken::ButtonText
        }),
{
}

/// The tokens of a primary button are those named after its states.
pub proof fn law_primary_buttons_have_their_tokens(pressed: bool, hovered: bool)
    ensures
        ({
            let variant = ButtonVariant::Primary;
            &&& styles::background_of(variant, styles::state_of(true, pressed, hovered))
                == StyleToken::ButtonPrimaryBgDisabled
            &&& styles::background_of(variant, styles::state_of(false, true, hovered))
                == StyleToken::ButtonPrimaryBgPressed
            &&& styles::background_of(variant, styles::state_of(false, false, true))
                == StyleToken::ButtonPrimaryBgHover
            &&& styles::background_of(variant, styles::state_of(false, false, false))
                == StyleToken::ButtonPrimaryBg
            &&& styles::text_of(variant, true) == StyleToken::ButtonPrimaryTextDisabled
            &&& styles::text_of(variant, false) == StyleToken::ButtonPrimaryText
        }),
{
}

/// The tokens of a plain button are those named after its states; its text is
/// that of a normal one.
pub proof fn law_plain_buttons_have_their_tokens(pressed: bool, hovered: bool)
    ensures
        ({
            let variant = ButtonVariant::Plain;
            &&& styles::background_of(variant, styles::state_of(true, pressed, hovered))
                == StyleToken::ButtonPlainBgDisabled
            &&& styles::background_of(variant, styles::state_of(false, true, hovered))
                == StyleToken::ButtonPlainBgPressed
            &&& styles::background_of(variant, styles::state_of(false, false, true))
                == StyleToken::ButtonPlainBgHover
            &&& styles::background_of(variant, styles::state_of(false, false, false))
                == StyleToken::ButtonPlainBg
            &&& styles::text_of(variant, true) == StyleToken::ButtonTextDisabled
            &&& styles::text_of(variant, false) == StyleToken::ButtonText
        }),
{
}

/// A token is given just where it is not in place.
pub proof fn law_tokens_are_given_where_missing(wanted: StyleToken, present: StyleToken)
    ensures
        styles::if_new(wanted, wanted) is None,
        wanted != present ==> styles::if_new(wanted, present) == Some(wanted),
{
}

/// The cursor of an entity is its own, or else that of its nearest ancestor that
/// has one: the one at the least place of the chain.
pub proof fn law_nearest_cursor_counts(chain: Seq<Option<EntityCursor>>, k: int)
    requires
        0 <= k < chain.len(),
        chain[k] is Some,
        forall|j: int| 0 <= j < k ==> #[trigger] chain[j] is None,
    ensures
        cursor::first_cursor(chain) == chain[k],
    decreases k,
{
    if k > 0 {
        assert(chain[0] is None);
        assert forall|j: int| 0 <= j < k - 1 implies #[trigger] chain.skip(1)[j] is None by {
            assert(chain.skip(1)[j] == chain[j + 1]);
        }
        assert(chain.skip(1)[k - 1] == chain[k]);
        law_nearest_cursor_counts(chain.skip(1), k - 1);
    }
}

/// A chain without cursors has none.
pub proof fn law_chains_without_cursors_have_none(chain: Seq<Option<EntityCursor>>)
    requires
        forall|j: int| 0 <= j < chain.len() ==> #[trigger] chain[j] is None,
    ensures
        cursor::first_cursor(chain) is None,
    decreases chain.len(),
{
    if chain.len() > 0 {
        assert(chain[0] is None);
        assert forall|j: int| 0 <= j < chain.skip(1).len() implies #[trigger] chain.skip(1)[j] is None by {
            assert(chain.skip(1)[j] == chain[j + 1]);
        }
        law_chains_without_cursors_have_none(chain.skip(1));
    }
}

/// Of several hovered entities the first one whose chain has a cursor counts,
/// and in its chain the nearest cursor.
pub proof fn law_first_hovered_entity_counts(
    chains: Seq<Vec<Option<EntityCursor>>>,
    e: int,
    k: int,
)
    requires
        0 <= e < chains.len(),
        0 <= k < chains[e]@.len(),
        chains[e]@[k] is Some,
        forall|j: int| 0 <= j < k ==> #[trigger] chains[e]@[j] is None,
        forall|d: int, j: int|
            0 <= d < e && 0 <= j < chains[d]@.len() ==> #[trigger] chains[d]@[j] is None,
    ensures
        cursor::hovered_cursor(chains) == chains[e]@[k],
    decreases e,
{
    if e == 0 {
        law_nearest_cursor_counts(chains[0]@, k);
    } else {
        law_chains_without_cursors_have_none(chains[0]@);
        let rest = chains.skip(1);
        assert(rest[e - 1] == chains[e]);
        assert forall|d: int, j: int|
            0 <= d < e - 1 && 0 <= j < rest[d]@.len() implies #[trigger] rest[d]@[j] is None by {
            assert(rest[d] == chains[d + 1]);
            assert(chains[d + 1]@[j] is None);
        }
        law_first_hovered_entity_counts(rest, e - 1, k);
    }
}

/// The override comes before anything that is hovered, and that before the
/// default.
pub proof fn law_override_comes_first(
    overriding: Option<EntityCursor>,
    chains: Seq<Vec<Option<EntityCursor>>>,
    default: EntityCursor,
)
    ensures
        overriding is Some ==> cursor::chosen_cursor(overriding, chains, default) == overriding->0,
        overriding is None && cursor::hovered_cursor(chains) is Some ==> cursor::chosen_cursor(
            overriding,
            chains,
            default,
        ) == cursor::hovered_cursor(chains)->0,
        overriding is None && cursor::hovered_cursor(chains) is None ==> cursor::chosen_cursor(
            overriding,
            chains,
            default,
        ) == default,
{
}

/// Nothing hovered has a cursor: the default shows.
pub proof fn law_default_shows_over_nothing(
    chains: Seq<Vec<Option<EntityCursor>>>,
    default: EntityCursor,
)
    requires
        forall|d: int, j: int|
            0 <= d < chains.len() && 0 <= j < chains[d]@.len() ==> #[trigger] chains[d]@[j] is None,
    ensures
        cursor::hovered_cursor(chains) is None,
        cursor::chosen_cursor(None, chains, default) == default,
    decreases chains.len(),
{
    if chains.len() > 0 {
        law_chains_without_cursors_have_none(chains[0]@);
        let rest = chains.skip(1);
        assert forall|d: int, j: int|
            0 <= d < rest.len() && 0 <= j < rest[d]@.len() implies #[trigger] rest[d]@[j] is None by {
            assert(rest[d] == chains[d + 1]);
            assert(chains[d + 1]@[j] is None);
        }
        law_default_shows_over_nothing(rest, default);
    }
}

/// Windows show the very cursor of the entity: its image or the system's shape.
/// A window is changed just where it does not show it yet.
pub proof fn law_windows_show_the_cursor(
    cursor: EntityCursor,
    window: Option<CursorIcon>,
)
    ensures
        cursor matches EntityCursor::Custom(image) ==> cursor::icon_of(cursor)
            == CursorIcon::Custom(image),
        cursor matches EntityCursor::System(shape) ==> cursor::icon_of(cursor)
            == CursorIcon::System(shape),
        window is None ==> cursor::has_to_change(cursor::icon_of(cursor), window),
        window == Some(cursor::icon_of(cursor)) ==> !cursor::has_to_change(
            cursor::icon_of(cursor),
            window,
        ),
        window is Some && window->0 != cursor::icon_of(cursor) ==> cursor::has_to_change(
            cursor::icon_of(cursor),
            window,
        ),
{
}

} // verus!
