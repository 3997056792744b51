//! The calculator's keypad: the four operations, the labels of its sixteen
//! buttons and which button a click hits. (The arithmetic itself is done on
//! floating-point numbers by the application.)
use vstd::prelude::*;

verus! {

#[derive(Debug, Clone, Copy, PartialEq, Eq, Structural)]
pub enum Operation {
    Add,
    Subtract,
    Multiply,
    Divide,
}

/// Width of a keypad button.
pub const BUTTON_WIDTH: usize = 40;
/// Height of a keypad button.
pub const BUTTON_HEIGHT: usize = 50;
/// Space between two buttons.
pub const BUTTON_SPACING: usize = 5;
/// Left edge of the keypad.
pub const KEYPAD_X: usize = 15;
/// Top edge of the keypad.
pub const KEYPAD_Y: usize = 85;

/// The labels of the buttons, row by row.
pub open spec fn labels() -> Seq<char> {
    seq!['7', '8', '9', ':', '4', '5', '6', 'x', '1', '2', '3', '-', '0', '.', '=', '+']
}

/// The top-left corner of button `idx` (four buttons a row).
pub open spec fn button_origin(idx: int) -> (int, int) {
    (KEYPAD_X + (idx % 4) * (BUTTON_WIDTH + BUTTON_SPACING), KEYPAD_Y + (idx / 4) * (BUTTON_HEIGHT + BUTTON_SPACING))
}

/// Whether button `idx` contains the point.
pub open spec fn in_button(idx: int, x: int, y: int) -> bool {
    let (bx, by) = button_origin(idx);
    bx <= x < bx + BUTTON_WIDTH && by <= y < by + BUTTON_HEIGHT
}

/// The label of button `idx`, if there is such a button.
pub fn button_label(idx: usize) -> (r: Option<char>)
    ensures
        idx < 16 ==> r == Some(labels()[idx as int]),
        idx >= 16 ==> r is None,
{
    let ls: [char; 16] = ['7', '8', '9', ':', '4', '5', '6', 'x', '1', '2', '3', '-', '0', '.', '=', '+'];
    assert(ls@ =~= labels());
    if idx < 16 {
        Some(ls[idx])
    } else {
        None
    }
}

/// The regions of the buttons, in order: `(x, y, width, height)`.
pub fn button_regions() -> (r: Vec<(usize, usize, usize, usize)>)
    ensures
        r@.len() == 16,
        forall|i: int| 0 <= i < 16 ==> (#[trigger] r@[i]).0 == button_origin(i).0 && r@[i].1 == button_origin(i).1
            && r@[i].2 == BUTTON_WIDTH && r@[i].3 == BUTTON_HEIGHT,
{
    let mut out: Vec<(usize, usize, usize, usize)> = Vec::new();
    let mut row: usize = 0;
    while row < 4
        invariant
            row <= 4,
            out@.len() == row * 4,
            forall|i: int| 0 <= i < out@.len() ==> (#[trigger] out@[i]).0 == button_origin(i).0 && out@[i].1 == button_origin(i).1
                && out@[i].2 == BUTTON_WIDTH && out@[i].3 == BUTTON_HEIGHT,
        decreases 4 - row,
    {
        let mut col: usize = 0;
        while col < 4
            invariant
                row < 4,
                col <= 4,
                out@.len() == row * 4 + col,
                forall|i: int| 0 <= i < out@.len() ==> (#[trigger] out@[i]).0 == button_origin(i).0 && out@[i].1 == button_origin(i).1
                    && out@[i].2 == BUTTON_WIDTH && out@[i].3 == BUTTON_HEIGHT,
            decreases 4 - col,
        {
            assert(col * 45 <= 135 && row * 55 <= 165) by (nonlinear_arith)
                requires col < 4, row < 4;
            let x = KEYPAD_X + col * (BUTTON_WIDTH + BUTTON_SPACING);
            let y = KEYPAD_Y + row * (BUTTON_HEIGHT + BUTTON_SPACING);
            proof {
                let i = (row * 4 + col) as int;
                assert(i % 4 == col as int && i / 4 == row as int) by (nonlinear_arith)
                    requires i == row * 4 + col, col < 4;
            }
            out.push((x, y, BUTTON_WIDTH, BUTTON_HEIGHT));
            col = col + 1;
        }
        row = row + 1;
    }
    out
}

/// The first button that contains the point, if any.
pub fn button_at(x: usize, y: usize) -> (r: Option<usize>)
    ensures
        match r {
            Some(i) => i < 16 && in_button(i as int, x as int, y as int)
                && forall|j: int| 0 <= j < i ==> !in_button(j, x as int, y as int),
            None => forall|j: int| 0 <= j < 16 ==> !in_button(j, x as int, y as int),
        },
{
    let regions = button_regions();
    let mut i: usize = 0;
    while i < regions.len()
        invariant
            i <= 16,
            regions@.len() == 16,
            forall|k: int| 0 <= k < 16 ==> (#[trigger] regions@[k]).0 == button_origin(k).0 && regions@[k].1 == button_origin(k).1
                && regions@[k].2 == BUTTON_WIDTH && regions@[k].3 == BUTTON_HEIGHT,
            forall|j: int| 0 <= j < i ==> !in_button(j, x as int, y as int),
        decreases 16 - i,
    {
        let (bx, by, w, h) = regions[i];
        assert(regions@[i as int].0 == button_origin(i as int).0);
        if x >= bx && x - bx < w && y >= by && y - by < h {
            return Some(i);
        }
        i = i + 1;
    }
    None
}

} // verus!
