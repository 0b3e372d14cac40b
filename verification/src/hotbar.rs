//! The hotbar: a row of block slots. The bar is a sliding window of
//! `VISIBLE` cells onto the full list of slots, scrolled along to keep the
//! selection in view.

use vstd::prelude::*;
use crate::block::Block;

verus! {

/// How many slots there are: the empty hand and every placeable block.
pub const SLOT_COUNT: usize = 21;

/// How many cells the bar shows at once.
pub const VISIBLE: usize = 9;

/// Every slot, in bar order. The first is the empty hand.
pub open spec fn slots() -> Seq<Option<Block>> {
    seq![
        None,
        Some(Block::Grass),
        Some(Block::Dirt),
        Some(Block::Stone),
        Some(Block::Sand),
        Some(Block::Wood),
        Some(Block::Leaves),
        Some(Block::Water),
        Some(Block::TallGrass),
        Some(Block::RedFlower),
        Some(Block::YellowFlower),
        Some(Block::RoofTile),
        Some(Block::RoofRidge),
        Some(Block::Thatch),
        Some(Block::Plaster),
        Some(Block::ClayWall),
        Some(Block::Paper),
        Some(Block::Dancheong),
        Some(Block::RedPillar),
        Some(Block::Granite),
        Some(Block::Road),
    ]
}

/// Whether some slot of the bar holds `b`.
pub open spec fn has_slot(b: Block) -> bool {
    exists|i: int| #![trigger slots()[i]] 0 <= i < SLOT_COUNT && slots()[i] == Some(b)
}

/// The bar holds the empty hand first and then every block a player can
/// place, each exactly once: no two slots hold the same thing, and every
/// block but air and the name boards (which only the palace puts up) has a
/// slot.
pub proof fn lemma_slots_each_block_once()
    ensures
        slots().len() == SLOT_COUNT,
        slots()[0] is None,
        forall|i: int, j: int| #![trigger slots()[i], slots()[j]] 0 <= i < j < SLOT_COUNT ==> slots()[i] != slots()[j],
        forall|b: Block| !(b is Air) && !(b is Signpost) ==> #[trigger] has_slot(b),
{
    let s = slots();
    assert forall|i: int, j: int| #![trigger slots()[i], slots()[j]] 0 <= i < j < SLOT_COUNT implies slots()[i] != slots()[j] by {
        assert(0 <= i < 21 && 0 <= j < 21);
    }
    assert forall|b: Block| !(b is Air) && !(b is Signpost) implies #[trigger] has_slot(b) by {
        match b {
            Block::Grass => assert(s[1] == Some(b)),
            Block::Dirt => assert(s[2] == Some(b)),
            Block::Stone => assert(s[3] == Some(b)),
            Block::Sand => assert(s[4] == Some(b)),
            Block::Wood => assert(s[5] == Some(b)),
            Block::Leaves => assert(s[6] == Some(b)),
            Block::Water => assert(s[7] == Some(b)),
            Block::TallGrass => assert(s[8] == Some(b)),
            Block::RedFlower => assert(s[9] == Some(b)),
            Block::YellowFlower => assert(s[10] == Some(b)),
            Block::RoofTile => assert(s[11] == Some(b)),
            Block::RoofRidge => assert(s[12] == Some(b)),
            Block::Thatch => assert(s[13] == Some(b)),
            Block::Plaster => assert(s[14] == Some(b)),
            Block::ClayWall => assert(s[15] == Some(b)),
            Block::Paper => assert(s[16] == Some(b)),
            Block::Dancheong => assert(s[17] == Some(b)),
            Block::RedPillar => assert(s[18] == Some(b)),
            Block::Granite => assert(s[19] == Some(b)),
            Block::Road => assert(s[20] == Some(b)),
            _ => {},
        }
    }
}

/// The slot at index `i` of the bar.
pub fn slot(i: usize) -> (b: Option<Block>)
    requires
        i < SLOT_COUNT,
    ensures
        b == slots()[i as int],
{
    match i {
        0 => None,
        1 => Some(Block::Grass),
        2 => Some(Block::Dirt),
        3 => Some(Block::Stone),
        4 => Some(Block::Sand),
        5 => Some(Block::Wood),
        6 => Some(Block::Leaves),
        7 => Some(Block::Water),
        8 => Some(Block::TallGrass),
        9 => Some(Block::RedFlower),
        10 => Some(Block::YellowFlower),
        11 => Some(Block::RoofTile),
        12 => Some(Block::RoofRidge),
        13 => Some(Block::Thatch),
        14 => Some(Block::Plaster),
        15 => Some(Block::ClayWall),
        16 => Some(Block::Paper),
        17 => Some(Block::Dancheong),
        18 => Some(Block::RedPillar),
        19 => Some(Block::Granite),
        _ => Some(Block::Road),
    }
}

/// Which slot is selected.
pub struct Hotbar {
    pub selected: usize,
}

/// The leftmost visible slot when `selected` is selected: the window keeps the
/// selection centred until it runs into either end of the list, then stops.
pub open spec fn window_of(selected: int) -> int {
    let centred = if selected >= 4 { selected - 4 } else { 0 };
    if centred < 12 { centred } else { 12 }
}

impl Default for Hotbar {
    /// The starting selection: holding grass, not the empty hand.
    fn default() -> (h: Hotbar)
        ensures
            h.selected == 1,
    {
        Hotbar { selected: 1 }
    }
}

impl Hotbar {
    /// A selection that names a slot.
    pub open spec fn wf(&self) -> bool {
        self.selected < SLOT_COUNT
    }

    /// The block the player will place, or `None` when the hand is empty.
    pub fn block(&self) -> (b: Option<Block>)
        requires
            self.wf(),
        ensures
            b == slots()[self.selected as int],
    {
        slot(self.selected)
    }

    /// Index of the leftmost visible slot. The window keeps the selection
    /// centred until it runs into either end of the list, then stops, so the
    /// bar does not jitter near the edges.
    pub fn window_start(&self) -> (start: usize)
        ensures
            start == window_of(self.selected as int),
            self.wf() ==> start <= self.selected < start + VISIBLE,
            start + VISIBLE <= SLOT_COUNT,
    {
        let last_start = SLOT_COUNT - VISIBLE;
        let centred = if self.selected >= VISIBLE / 2 {
            self.selected - VISIBLE / 2
        } else {
            0
        };
        if centred < last_start {
            centred
        } else {
            last_start
        }
    }
}

/// The last index at which `digits` is set, if any: which of the digit keys
/// pressed together wins.
pub open spec fn last_pressed(digits: Seq<bool>) -> Option<int>
    decreases digits.len(),
{
    if digits.len() == 0 {
        None
    } else if digits.last() {
        Some(digits.len() - 1)
    } else {
        last_pressed(digits.drop_last())
    }
}

/// What `select_slot` selects: a pressed digit picks the visible cell it
/// names (clamped to the last slot), then the wheel steps one slot back
/// (`scroll > 0`) or forward (`scroll < 0`), wrapping round the list.
pub open spec fn selection_after(selected: int, digits: Seq<bool>, scroll: int) -> int {
    let picked = match last_pressed(digits) {
        Some(cell) => {
            let s = window_of(selected) + cell;
            if s < SLOT_COUNT - 1 { s } else { SLOT_COUNT - 1 }
        },
        None => selected,
    };
    if scroll > 0 {
        (picked + SLOT_COUNT - 1) % (SLOT_COUNT as int)
    } else if scroll < 0 {
        (picked + 1) % (SLOT_COUNT as int)
    } else {
        picked
    }
}

/// Number keys pick a visible cell, `digits[i]` saying whether the key for
/// cell `i` was just pressed; the mouse wheel walks the whole list, its
/// direction given by the sign of `scroll`.
pub fn select_slot(hotbar: &mut Hotbar, digits: &[bool], scroll: i32)
    requires
        old(hotbar).wf(),
        digits@.len() <= VISIBLE,
    ensures
        final(hotbar).wf(),
        final(hotbar).selected == selection_after(old(hotbar).selected as int, digits@, scroll as int),
{
    let start = hotbar.window_start();
    let mut cell: usize = 0;
    while cell < digits.len()
        invariant
            0 <= cell <= digits@.len() <= VISIBLE,
            start == window_of(old(hotbar).selected as int),
            start + VISIBLE <= SLOT_COUNT,
            hotbar.wf(),
            hotbar.selected == (match last_pressed(digits@.take(cell as int)) {
                Some(c) => {
                    let s = start + c;
                    if s < SLOT_COUNT - 1 { s } else { SLOT_COUNT - 1 }
                },
                None => old(hotbar).selected as int,
            }),
        decreases digits@.len() - cell,
    {
        assert(digits@.take(cell + 1).drop_last() =~= digits@.take(cell as int));
        if digits[cell] {
            let s = start + cell;
            hotbar.selected = if s < SLOT_COUNT - 1 {
                s
            } else {
                SLOT_COUNT - 1
            };
        }
        cell = cell + 1;
    }
    assert(digits@.take(digits@.len() as int) =~= digits@);
    let n = SLOT_COUNT;
    if scroll > 0 {
        hotbar.selected = (hotbar.selected + n - 1) % n;
    } else if scroll < 0 {
        hotbar.selected = (hotbar.selected + 1) % n;
    }
}

/// What one cell of the bar shows: whether it is the highlighted one, and the
/// block icon in it (none for the empty hand).
pub open spec fn cell_view(selected: int, cell: int) -> (bool, Option<Block>) {
    let s = window_of(selected) + cell;
    (s == selected, slots()[s])
}

/// What each visible cell of the bar shows, left to right: whether it is
/// highlighted, and the block its icon draws.
pub fn update_selection(hotbar: &Hotbar) -> (cells: Vec<(bool, Option<Block>)>)
    requires
        hotbar.wf(),
    ensures
        cells@.len() == VISIBLE,
        forall|i: int| 0 <= i < VISIBLE ==> #[trigger] cells@[i] == cell_view(hotbar.selected as int, i),
{
    let start = hotbar.window_start();
    let mut cells: Vec<(bool, Option<Block>)> = Vec::new();
    let mut cell: usize = 0;
    while cell < VISIBLE
        invariant
            0 <= cell <= VISIBLE,
            start == window_of(hotbar.selected as int),
            start + VISIBLE <= SLOT_COUNT,
            cells@.len() == cell,
            forall|i: int| 0 <= i < cell ==> #[trigger] cells@[i] == cell_view(hotbar.selected as int, i),
        decreases VISIBLE - cell,
    {
        cells.push((start + cell == hotbar.selected, slot(start + cell)));
        cell = cell + 1;
    }
    cells
}

} // verus!
