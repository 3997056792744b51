//! The keyboard layout setting: AZERTY (0), QWERTY (1) or Dvorak (2).
use vstd::prelude::*;
use crate::text::{chars_of, same_chars};

verus! {

/// The index of a layout name.
pub open spec fn layout_index(name: Seq<char>) -> Option<usize> {
    if name == seq!['a', 'z', 'e', 'r', 't', 'y'] {
        Some(0)
    } else if name == seq!['q', 'w', 'e', 'r', 't', 'y'] {
        Some(1)
    } else if name == seq!['d', 'v', 'o', 'r', 'a', 'k'] {
        Some(2)
    } else {
        None
    }
}

/// The name of the layout with index `i` (AZERTY for any index but 1 and 2).
pub open spec fn layout_name(i: usize) -> Seq<char> {
    if i == 1 {
        seq!['q', 'w', 'e', 'r', 't', 'y']
    } else if i == 2 {
        seq!['d', 'v', 'o', 'r', 'a', 'k']
    } else {
        seq!['a', 'z', 'e', 'r', 't', 'y']
    }
}


/// Selects the layout named `layout` ("azerty", "qwerty" or "dvorak");
/// returns false, changing nothing, for any other name.
pub fn set_keyboard_layout(current: &mut usize, layout: &str) -> (r: bool)
    ensures
        r == layout_index(layout@) is Some,
        *final(current) == match layout_index(layout@) {
            Some(i) => i,
            None => *old(current),
        },
{
    let name = chars_of(layout);
    let azerty = chars_of("azerty");
    let qwerty = chars_of("qwerty");
    let dvorak = chars_of("dvorak");
    proof {
        reveal_strlit("azerty");
        reveal_strlit("qwerty");
        reveal_strlit("dvorak");
    }
    assert(azerty@ =~= seq!['a', 'z', 'e', 'r', 't', 'y']);
    assert(qwerty@ =~= seq!['q', 'w', 'e', 'r', 't', 'y']);
    assert(dvorak@ =~= seq!['d', 'v', 'o', 'r', 'a', 'k']);
    let idx = if same_chars(&name, &azerty) {
        0
    } else if same_chars(&name, &qwerty) {
        1
    } else if same_chars(&name, &dvorak) {
        2
    } else {
        return false;
    };
    *current = idx;
    true
}

/// The name of the layout with index `current`.
pub fn get_current_layout(current: usize) -> (r: &'static str)
    ensures
        r@ == layout_name(current),
{
    proof {
        reveal_strlit("azerty");
        reveal_strlit("qwerty");
        reveal_strlit("dvorak");
    }
    if current == 1 {
        "qwerty"
    } else if current == 2 {
        "dvorak"
    } else {
        "azerty"
    }
}

/// Moves to the next layout, AZERTY, QWERTY, Dvorak and round again.
pub fn cycle_keyboard_layout(current: &mut usize) -> (r: bool)
    requires
        *old(current) < usize::MAX,
    ensures
        r,
        *final(current) == (*old(current) + 1) % 3,
{
    let next = (*current + 1) % 3;
    let name = get_current_layout(next);
    proof {
        assert(layout_index(layout_name(next)) == Some(next)) by {
            if next == 0 {
                assert(layout_name(next) != seq!['q', 'w', 'e', 'r', 't', 'y']) by {
                    assert(layout_name(next)[0] != 'q');
                }
            }
        }
    }
    set_keyboard_layout(current, name)
}

/// Cycling the layout three times comes back to the layout one started from.
pub proof fn lemma_cycle_three_times(layout: usize)
    requires
        layout < 3,
    ensures
        (((((layout + 1) % 3) + 1) % 3) + 1) % 3 == layout,
{
}

} // verus!
