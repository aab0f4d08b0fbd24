//! Editor state: the pan / paint mode and the terrain selected for painting.
use vstd::prelude::*;
use crate::grid::{spec_to_grid, GridCoord, WorldPos};
use crate::stream::TileStreamer;
use crate::terrain::TileType;

verus! {

/// What pointer drags do: move the camera, or paint tiles.
#[derive(Clone, Copy, Debug, PartialEq, Eq, Structural)]
pub enum EditorMode {
    Pan,
    Paint,
}

/// The mode and the terrain that painting applies.
#[derive(Clone, Copy, Debug, PartialEq, Eq, Structural)]
pub struct Editor {
    pub mode: EditorMode,
    pub selected: TileType,
}

/// The terrain that a category key selects: 1 grass, 2 water, 3 mountain.
pub open spec fn spec_tile_for_digit(digit: u8) -> Option<TileType> {
    if digit == 1 {
        Some(TileType::Grass)
    } else if digit == 2 {
        Some(TileType::Water)
    } else if digit == 3 {
        Some(TileType::Mountain)
    } else {
        None
    }
}

/// The terrain that category key `digit` selects, if it selects one.
pub fn tile_for_digit(digit: u8) -> (r: Option<TileType>)
    ensures
        r == spec_tile_for_digit(digit),
{
    if digit == 1 {
        Some(TileType::Grass)
    } else if digit == 2 {
        Some(TileType::Water)
    } else if digit == 3 {
        Some(TileType::Mountain)
    } else {
        None
    }
}

impl Editor {
    /// An editor in pan mode with grass selected.
    pub fn new() -> (r: Editor)
        ensures
            r.mode == EditorMode::Pan,
            r.selected == TileType::Grass,
    {
        Editor { mode: EditorMode::Pan, selected: TileType::Grass }
    }

    /// Switches between pan and paint mode when the toggle was pressed this
    /// tick.
    pub fn toggle_mode(&mut self, pressed: bool)
        ensures
            final(self).selected == old(self).selected,
            pressed ==> final(self).mode == (if old(self).mode == EditorMode::Pan {
                EditorMode::Paint
            } else {
                EditorMode::Pan
            }),
            !pressed ==> final(self).mode == old(self).mode,
    {
        if pressed {
            self.mode = match self.mode {
                EditorMode::Pan => EditorMode::Paint,
                EditorMode::Paint => EditorMode::Pan,
            };
        }
    }

    /// Whether camera dragging should be on: only in pan mode, so that drags
    /// do not fight with painting.
    pub fn camera_pan_enabled(&self) -> (r: bool)
        ensures
            r == (self.mode == EditorMode::Pan),
    {
        match self.mode {
            EditorMode::Pan => true,
            EditorMode::Paint => false,
        }
    }

    /// Selects a terrain from the category keys pressed this tick; the lowest
    /// pressed key wins, and with none pressed the selection stays.
    pub fn switch_tile_type(&mut self, one: bool, two: bool, three: bool)
        ensures
            final(self).mode == old(self).mode,
            final(self).selected == (if one {
                TileType::Grass
            } else if two {
                TileType::Water
            } else if three {
                TileType::Mountain
            } else {
                old(self).selected
            }),
    {
        let digit: u8 = if one {
            1
        } else if two {
            2
        } else if three {
            3
        } else {
            0
        };
        match tile_for_digit(digit) {
            Some(t) => {
                self.selected = t;
            },
            None => {},
        }
    }

    /// Applies the paint input of one tick: in paint mode, with the pointer
    /// held over world position `pointer`, the cell under it is painted with
    /// the selected terrain. Otherwise nothing changes. Returns the cell whose
    /// tile object must be destroyed, if any.
    pub fn paint(&self, streamer: &mut TileStreamer, pointer_down: bool, pointer: Option<WorldPos>) -> (r:
        Option<GridCoord>)
        requires
            old(streamer).wf(),
        ensures
            final(streamer).wf(),
            final(streamer).spec_radius() == old(streamer).spec_radius(),
            final(streamer).spec_edge() == old(streamer).spec_edge(),
            final(streamer).spec_center() == old(streamer).spec_center(),
            match pointer {
                Some(pos) if self.mode == EditorMode::Paint && pointer_down => {
                    let c = spec_to_grid(pos, old(streamer).spec_edge());
                    &&& final(streamer).terrain() == old(streamer).terrain().insert(c, self.selected)
                    &&& final(streamer).live_set() == old(streamer).live_set().remove(c)
                    &&& r == (if old(streamer).live_set().contains(c) {
                        Some(c)
                    } else {
                        None::<GridCoord>
                    })
                },
                _ => {
                    &&& final(streamer).terrain() == old(streamer).terrain()
                    &&& final(streamer).live_set() == old(streamer).live_set()
                    &&& r == None::<GridCoord>
                },
            },
    {
        match self.mode {
            EditorMode::Pan => None,
            EditorMode::Paint => {
                if !pointer_down {
                    return None;
                }
                match pointer {
                    Some(pos) => streamer.paint_at(pos, self.selected),
                    None => None,
                }
            },
        }
    }
}

} // verus!
