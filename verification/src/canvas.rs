//! The canvas controller: one live board, the current brush symbol and
//! tool, and the undo history, driven by UI commands.

use vstd::prelude::*;

use crate::bitmap::{
    board_to_bitmap, bright_rgb, brighten_raw, brightened_cells, flip_h_raw, flip_v_raw,
    fresh_board_from_bitmap, fresh_height, fresh_loaded, grayscale_raw, hue_rotated,
    huerotate_raw, image_of, lemma_image_of_px, luma8, overwrite_backgrounds, pixel_rgb,
    rotate90_raw, thumbnail_data, thumbnail_raw, Bitmap, IMPORT_HEIGHT_LIMIT, IMPORT_LIMIT,
};
use crate::codec::{
    chars_of, decode_project, encode_project, encode_text, project_text_of, spec_decode,
    string_from_chars, text_of, FormatError,
};
use crate::grid::{board_eq, default_cell, white, Board, Cell, Rgb, MAX_DIM};
use crate::history::{HistoryStack, HISTORY_CAPACITY};
use vstd::arithmetic::div_mod::{lemma_fundamental_div_mod, lemma_fundamental_div_mod_converse};

verus! {

/// The interaction mode of the canvas: painting, or picking a color and
/// symbol off the canvas.
#[derive(Clone, Copy, PartialEq, Eq, Structural, Debug)]
pub enum Tool {
    Draw,
    Pipette,
}

/// The shared brush state: the current foreground and background paint
/// colors. One value is owned by the event loop and passed by reference
/// both to the canvas and to the color picker.
#[derive(Clone, Copy, PartialEq, Eq, Structural, Debug)]
pub struct Brush {
    pub color: Rgb,
    pub backcolor: Rgb,
}

/// One phase of a pointer gesture on the canvas.
#[derive(Clone, Copy, PartialEq, Eq, Structural, Debug)]
pub enum PointerPhase {
    Press,
    Hold,
    Release,
}

/// The painting surface: a board, its undo history, the brush symbol and
/// the active tool.
pub struct CanvasView {
    board: Board,
    history: HistoryStack,
    brushsymbol: char,
    tool: Tool,
    dragging: bool,
}

impl CanvasView {
    /// The live board.
    pub closed spec fn grid(&self) -> Board {
        self.board
    }

    /// The undo history.
    pub closed spec fn hist(&self) -> HistoryStack {
        self.history
    }

    /// The character the brush currently paints with.
    pub closed spec fn brush_symbol(&self) -> char {
        self.brushsymbol
    }

    /// The active tool.
    pub closed spec fn cur_tool(&self) -> Tool {
        self.tool
    }

    /// Whether a pointer drag is underway: set by a gesture's first
    /// paint, cleared when the gesture is released.
    pub closed spec fn in_drag(&self) -> bool {
        self.dragging
    }

    /// The canvas invariant: a well-formed board and history.
    pub closed spec fn wf(&self) -> bool {
        &&& self.board.wf()
        &&& self.history.wf()
    }

    /// A fresh canvas: a default board of the given size, one initial
    /// snapshot in the history, a blank brush symbol, the drawing tool.
    pub fn new(width: usize, height: usize) -> (canvas: CanvasView)
        requires
            0 < width <= MAX_DIM,
            0 < height <= MAX_DIM,
        ensures
            canvas.wf(),
            canvas.grid().wf(),
            canvas.grid().width == width,
            canvas.grid().height == height,
            canvas.grid().all_cells(default_cell()),
            canvas.hist().snapshots().len() == 1,
            board_eq(&canvas.hist().snapshots()[0], &canvas.grid()),
            canvas.brush_symbol() == ' ',
            canvas.cur_tool() == Tool::Draw,
            !canvas.in_drag(),
    {
        let board = Board::new(width, height);
        let snapshot = board.duplicate();
        let mut history = HistoryStack::new();
        history.push(snapshot);
        CanvasView { board, history, brushsymbol: ' ', tool: Tool::Draw, dragging: false }
    }

    /// Paints the cell at `(x, y)` with the given colors and the current
    /// brush symbol; a silent no-op off the board. Takes no snapshot
    /// itself: gesture routing snapshots once, before a drag's first
    /// paint, so a whole drag is one undo step.
    pub fn changecolor(&mut self, x: usize, y: usize, color: Rgb, backcolor: Rgb)
        requires
            old(self).wf(),
        ensures
            final(self).wf(),
            final(self).in_drag() == old(self).in_drag(),
            final(self).hist() == old(self).hist(),
            final(self).brush_symbol() == old(self).brush_symbol(),
            final(self).cur_tool() == old(self).cur_tool(),
            final(self).grid().width == old(self).grid().width,
            final(self).grid().height == old(self).grid().height,
            old(self).grid().in_range(x as int, y as int) ==> final(self).grid().cells@
                == old(self).grid().cells@.update(
                old(self).grid().spec_index_of(x as int, y as int),
                Cell { color, backcolor, symbol: old(self).brush_symbol() },
            ),
            !old(self).grid().in_range(x as int, y as int) ==> final(self).grid().cells@
                == old(self).grid().cells@,
    {
        let symbol = self.brushsymbol;
        self.board.set(x, y, Cell { color, backcolor, symbol });
    }

    /// Selects the character the brush paints with.
    pub fn changebrushsymbol(&mut self, symbol: char)
        requires
            old(self).wf(),
        ensures
            final(self).wf(),
            final(self).in_drag() == old(self).in_drag(),
            final(self).brush_symbol() == symbol,
            final(self).grid() == old(self).grid(),
            final(self).hist() == old(self).hist(),
            final(self).cur_tool() == old(self).cur_tool(),
    {
        self.brushsymbol = symbol;
    }

    /// Resets every cell to the default; the size is kept. Takes no
    /// snapshot itself: callers wanting undo snapshot first.
    pub fn clear(&mut self)
        requires
            old(self).wf(),
        ensures
            final(self).wf(),
            final(self).in_drag() == old(self).in_drag(),
            final(self).grid().width == old(self).grid().width,
            final(self).grid().height == old(self).grid().height,
            final(self).grid().all_cells(default_cell()),
            final(self).hist() == old(self).hist(),
            final(self).brush_symbol() == old(self).brush_symbol(),
            final(self).cur_tool() == old(self).cur_tool(),
    {
        self.board = Board::new(self.board.width, self.board.height);
    }

    /// Snapshots the board, then paints every cell with the brush colors
    /// and the current brush symbol.
    pub fn fill_all(&mut self, brush: &Brush)
        requires
            old(self).wf(),
        ensures
            final(self).wf(),
            final(self).in_drag() == old(self).in_drag(),
            final(self).grid().width == old(self).grid().width,
            final(self).grid().height == old(self).grid().height,
            final(self).grid().all_cells(
                Cell {
                    color: brush.color,
                    backcolor: brush.backcolor,
                    symbol: old(self).brush_symbol(),
                },
            ),
            snapshot_pushed(
                old(self).hist(),
                final(self).hist(),
                old(self).grid().width as int,
                old(self).grid().height as int,
                old(self).grid().cells@,
            ),
            final(self).brush_symbol() == old(self).brush_symbol(),
            final(self).cur_tool() == old(self).cur_tool(),
    {
        self.add_history();
        let cell = Cell {
            color: brush.color,
            backcolor: brush.backcolor,
            symbol: self.brushsymbol,
        };
        self.board = Board::filled(self.board.width, self.board.height, cell);
    }

    /// Pops the newest history entry back into the live board; a no-op
    /// when the history is empty.
    pub fn back(&mut self)
        requires
            old(self).wf(),
        ensures
            final(self).wf(),
            final(self).in_drag() == old(self).in_drag(),
            old(self).hist().snapshots().len() == 0 ==> final(self).grid() == old(self).grid()
                && final(self).hist().snapshots() == old(self).hist().snapshots(),
            old(self).hist().snapshots().len() > 0 ==> final(self).grid()
                == old(self).hist().snapshots().last() && final(self).hist().snapshots()
                == old(self).hist().snapshots().drop_last(),
            final(self).brush_symbol() == old(self).brush_symbol(),
            final(self).cur_tool() == old(self).cur_tool(),
    {
        let past = self.history.pop();
        match past {
            Some(board) => {
                self.board = board;
            },
            None => {},
        }
    }

    /// Pushes a snapshot of the board onto the history, evicting the
    /// oldest entry first when the history is full.
    pub fn add_history(&mut self)
        requires
            old(self).wf(),
        ensures
            final(self).wf(),
            final(self).in_drag() == old(self).in_drag(),
            snapshot_pushed(
                old(self).hist(),
                final(self).hist(),
                old(self).grid().width as int,
                old(self).grid().height as int,
                old(self).grid().cells@,
            ),
            final(self).grid() == old(self).grid(),
            final(self).brush_symbol() == old(self).brush_symbol(),
            final(self).cur_tool() == old(self).cur_tool(),
    {
        let snapshot = self.board.duplicate();
        let ghost before = self.history.snapshots();
        proof {
            self.history.lemma_wf_bounds();
        }
        self.history.push(snapshot);
        proof {
            let after = self.history.snapshots();
            if before.len() < HISTORY_CAPACITY {
                assert(after.drop_last() =~= before);
            } else {
                assert(after.drop_last() =~= before.subrange(1, HISTORY_CAPACITY as int));
            }
        }
    }

    /// Selects the active tool.
    pub fn set_tool(&mut self, tool: Tool)
        requires
            old(self).wf(),
        ensures
            final(self).wf(),
            final(self).in_drag() == old(self).in_drag(),
            final(self).cur_tool() == tool,
            final(self).grid() == old(self).grid(),
            final(self).hist() == old(self).hist(),
            final(self).brush_symbol() == old(self).brush_symbol(),
    {
        self.tool = tool;
    }

    /// With the pipette active and `(x, y)` on the board, copies that
    /// cell's colors into the brush and its symbol into the brush symbol,
    /// then drops back to the drawing tool; otherwise a no-op. The undo
    /// history is never touched.
    pub fn pick_at(&mut self, x: usize, y: usize, brush: &mut Brush) -> (picked: bool)
        requires
            old(self).wf(),
        ensures
            final(self).wf(),
            final(self).in_drag() == old(self).in_drag(),
            final(self).grid() == old(self).grid(),
            final(self).hist() == old(self).hist(),
            picked == (old(self).cur_tool() == Tool::Pipette
                && old(self).grid().in_range(x as int, y as int)),
            picked ==> {
                let cell = old(self).grid().cell_at(x as int, y as int);
                &&& final(brush).color == cell.color
                &&& final(brush).backcolor == cell.backcolor
                &&& final(self).brush_symbol() == cell.symbol
                &&& final(self).cur_tool() == Tool::Draw
            },
            !picked ==> *final(brush) == *old(brush) && final(self).brush_symbol() == old(
                self,
            ).brush_symbol() && final(self).cur_tool() == old(self).cur_tool(),
    {
        match self.tool {
            Tool::Pipette => {
                match self.board.get(x, y) {
                    Some(cell) => {
                        brush.color = cell.color;
                        brush.backcolor = cell.backcolor;
                        self.brushsymbol = cell.symbol;
                        self.tool = Tool::Draw;
                        true
                    },
                    None => false,
                }
            },
            Tool::Draw => false,
        }
    }

    /// Routes one phase of a pointer gesture. A press picks when the
    /// pipette is active. Holding paints with the brush; the first paint
    /// of a gesture first snapshots the board as it stands, so that the
    /// whole drag is one undo step and one undo restores the pre-drag
    /// picture. Releasing closes the gesture and touches nothing else.
    /// Returns whether the event painted a cell.
    pub fn on_pointer(
        &mut self,
        phase: PointerPhase,
        x: usize,
        y: usize,
        brush: &mut Brush,
    ) -> (painted: bool)
        requires
            old(self).wf(),
        ensures
            final(self).wf(),
            painted == (phase == PointerPhase::Hold && old(self).grid().in_range(
                x as int,
                y as int,
            )),
            phase == PointerPhase::Press ==> {
                let picked = old(self).cur_tool() == Tool::Pipette && old(self).grid().in_range(
                    x as int,
                    y as int,
                );
                &&& final(self).grid() == old(self).grid()
                &&& final(self).hist() == old(self).hist()
                &&& final(self).in_drag() == old(self).in_drag()
                &&& picked ==> {
                    let cell = old(self).grid().cell_at(x as int, y as int);
                    &&& final(brush).color == cell.color
                    &&& final(brush).backcolor == cell.backcolor
                    &&& final(self).brush_symbol() == cell.symbol
                    &&& final(self).cur_tool() == Tool::Draw
                }
                &&& !picked ==> *final(brush) == *old(brush) && final(self).brush_symbol() == old(
                    self,
                ).brush_symbol() && final(self).cur_tool() == old(self).cur_tool()
            },
            phase == PointerPhase::Hold && old(self).grid().in_range(x as int, y as int)
                ==> drag_hold_step(*old(self), *final(self), x as int, y as int, *old(brush))
                && *final(brush) == *old(brush),
            phase == PointerPhase::Hold && !old(self).grid().in_range(x as int, y as int)
                ==> *final(self) == *old(self) && *final(brush) == *old(brush),
            phase == PointerPhase::Release ==> {
                &&& final(self).grid() == old(self).grid()
                &&& final(self).hist() == old(self).hist()
                &&& final(self).brush_symbol() == old(self).brush_symbol()
                &&& final(self).cur_tool() == old(self).cur_tool()
                &&& !final(self).in_drag()
                &&& *final(brush) == *old(brush)
            },
    {
        match phase {
            PointerPhase::Press => {
                self.pick_at(x, y, brush);
                false
            },
            PointerPhase::Hold => {
                let in_range = x < self.get_width_usize() && y < self.get_height_usize();
                if in_range {
                    if !self.dragging {
                        self.add_history();
                        self.dragging = true;
                    }
                    self.changecolor(x, y, brush.color, brush.backcolor);
                    true
                } else {
                    false
                }
            },
            PointerPhase::Release => {
                self.dragging = false;
                false
            },
        }
    }

    /// The board exported as a bitmap: each cell's background colors one
    /// column across two pixel rows, so cells render twice as tall as
    /// wide. Foregrounds and symbols are not represented.
    pub fn toimage(&mut self) -> (r: Bitmap)
        requires
            old(self).wf(),
        ensures
            *final(self) == *old(self),
            r.wf(),
            r.width == old(self).grid().width,
            r.height == 2 * old(self).grid().height,
            r.data@ == image_of(
                old(self).grid().width as int,
                old(self).grid().height as int,
                old(self).grid().cells@,
            ),
    {
        board_to_bitmap(&self.board)
    }

    /// Loads a bitmap into the board, after one history snapshot.
    ///
    /// With an overlay (internal use, for filter round-trips) the bitmap
    /// must already match it: only backgrounds are overwritten, sampled
    /// from the even pixel rows; foregrounds and symbols come from the
    /// overlay. Without one, a fresh board is loaded with default
    /// foregrounds; a bitmap wider or taller than `IMPORT_LIMIT` is
    /// first scaled to fit `IMPORT_LIMIT` by `IMPORT_HEIGHT_LIMIT`,
    /// preserving aspect ratio.
    pub fn fromimage(&mut self, img: Bitmap, overlay_old: Option<Vec<Cell>>)
        requires
            old(self).wf(),
            img.wf(),
            0 < img.width,
            0 < img.height,
            overlay_old matches Some(o) ==> {
                &&& img.width <= MAX_DIM
                &&& img.height % 2 == 0
                &&& 0 < img.height / 2 <= MAX_DIM
                &&& o@.len() == (img.width as int) * ((img.height / 2) as int)
            },
        ensures
            final(self).wf(),
            final(self).in_drag() == old(self).in_drag(),
            snapshot_pushed(
                old(self).hist(),
                final(self).hist(),
                old(self).grid().width as int,
                old(self).grid().height as int,
                old(self).grid().cells@,
            ),
            final(self).brush_symbol() == old(self).brush_symbol(),
            final(self).cur_tool() == old(self).cur_tool(),
            overlay_old matches Some(o) ==> {
                &&& final(self).grid().width == img.width
                &&& final(self).grid().height == img.height / 2
                &&& forall|x: int, y: int|
                    final(self).grid().in_range(x, y) ==> final(self).grid().cell_at(x, y)
                        == (Cell {
                        color: o@[y * (img.width as int) + x].color,
                        backcolor: pixel_rgb(img.data@, img.width as int, x, 2 * y),
                        symbol: o@[y * (img.width as int) + x].symbol,
                    })
            },
            overlay_old.is_none() && img.width <= IMPORT_LIMIT && img.height <= IMPORT_LIMIT
                ==> fresh_loaded(
                final(self).grid(),
                img.data@,
                img.width as int,
                img.height as int,
            ),
            overlay_old.is_none() && !(img.width <= IMPORT_LIMIT && img.height <= IMPORT_LIMIT)
                ==> exists|rw: int, rh: int|
                1 <= rw <= IMPORT_LIMIT && 1 <= rh <= IMPORT_HEIGHT_LIMIT && #[trigger] fresh_loaded(
                    final(self).grid(),
                    thumbnail_data(
                        img.data@,
                        img.width as int,
                        img.height as int,
                        IMPORT_LIMIT as int,
                        IMPORT_HEIGHT_LIMIT as int,
                    ),
                    rw,
                    rh,
                ),
    {
        self.add_history();
        match overlay_old {
            Some(o) => {
                let gw: usize = img.width as usize;
                let gh: usize = (img.height / 2) as usize;
                proof {
                    lemma_fundamental_div_mod(img.height as int, 2);
                }
                let mut board = Board { width: gw, height: gh, cells: o };
                overwrite_backgrounds(&mut board, &img);
                self.board = board;
            },
            None => {
                if img.width <= IMPORT_LIMIT && img.height <= IMPORT_LIMIT {
                    proof {
                        lemma_fundamental_div_mod(img.height as int, 2);
                    }
                    self.board = fresh_board_from_bitmap(&img);
                } else {
                    let small = thumbnail_raw(&img, IMPORT_LIMIT, IMPORT_HEIGHT_LIMIT);
                    proof {
                        lemma_fundamental_div_mod(small.height as int, 2);
                    }
                    self.board = fresh_board_from_bitmap(&small);
                    proof {
                        assert(fresh_loaded(
                            self.grid(),
                            thumbnail_data(
                                img.data@,
                                img.width as int,
                                img.height as int,
                                IMPORT_LIMIT as int,
                                IMPORT_HEIGHT_LIMIT as int,
                            ),
                            small.width as int,
                            small.height as int,
                        ));
                    }
                }
            },
        }
    }

    /// Mirrors the background colors left to right, after one snapshot.
    /// Foregrounds and symbols stay where they are.
    pub fn fliph(&mut self)
        requires
            old(self).wf(),
        ensures
            final(self).wf(),
            final(self).in_drag() == old(self).in_drag(),
            final(self).grid().width == old(self).grid().width,
            final(self).grid().height == old(self).grid().height,
            forall|x: int, y: int|
                old(self).grid().in_range(x, y) ==> final(self).grid().cell_at(x, y) == (Cell {
                    color: old(self).grid().cell_at(x, y).color,
                    backcolor: old(self).grid().cell_at(
                        old(self).grid().width - 1 - x,
                        y,
                    ).backcolor,
                    symbol: old(self).grid().cell_at(x, y).symbol,
                }),
            snapshot_pushed(
                old(self).hist(),
                final(self).hist(),
                old(self).grid().width as int,
                old(self).grid().height as int,
                old(self).grid().cells@,
            ),
            final(self).brush_symbol() == old(self).brush_symbol(),
            final(self).cur_tool() == old(self).cur_tool(),
    {
        let bmp = self.toimage();
        let overlay_old = self.get_overlay();
        let w = bmp.width;
        let h = bmp.height;
        let ghost gw = old(self).grid().width as int;
        let ghost gh = old(self).grid().height as int;
        let ghost cells = old(self).grid().cells@;
        let data = flip_h_raw(w, h, bmp.data);
        let flipped = Bitmap { width: w, height: h, data };
        proof {
            lemma_fundamental_div_mod_converse(2 * gh, 2, gh, 0);
        }
        self.fromimage(flipped, Some(overlay_old));
        proof {
            let fg = self.grid();
            assert forall|x: int, y: int| old(self).grid().in_range(x, y) implies fg.cell_at(x, y)
                == (Cell {
                color: old(self).grid().cell_at(x, y).color,
                backcolor: old(self).grid().cell_at(gw - 1 - x, y).backcolor,
                symbol: old(self).grid().cell_at(x, y).symbol,
            }) by {
                lemma_image_of_px(gw, gh, cells, gw - 1 - x, 2 * y, 0);
                lemma_image_of_px(gw, gh, cells, gw - 1 - x, 2 * y, 1);
                lemma_image_of_px(gw, gh, cells, gw - 1 - x, 2 * y, 2);
                lemma_fundamental_div_mod_converse(2 * y, 2, y, 0);
                old(self).grid().lemma_index_of_in_bounds(x, y);
                old(self).grid().lemma_index_of_in_bounds(gw - 1 - x, y);
            }
        }
    }

    /// Mirrors the background colors top to bottom, after one snapshot.
    /// Foregrounds and symbols stay where they are.
    pub fn flipv(&mut self)
        requires
            old(self).wf(),
        ensures
            final(self).wf(),
            final(self).in_drag() == old(self).in_drag(),
            final(self).grid().width == old(self).grid().width,
            final(self).grid().height == old(self).grid().height,
            forall|x: int, y: int|
                old(self).grid().in_range(x, y) ==> final(self).grid().cell_at(x, y) == (Cell {
                    color: old(self).grid().cell_at(x, y).color,
                    backcolor: old(self).grid().cell_at(
                        x,
                        old(self).grid().height - 1 - y,
                    ).backcolor,
                    symbol: old(self).grid().cell_at(x, y).symbol,
                }),
            snapshot_pushed(
                old(self).hist(),
                final(self).hist(),
                old(self).grid().width as int,
                old(self).grid().height as int,
                old(self).grid().cells@,
            ),
            final(self).brush_symbol() == old(self).brush_symbol(),
            final(self).cur_tool() == old(self).cur_tool(),
    {
        let bmp = self.toimage();
        let overlay_old = self.get_overlay();
        let w = bmp.width;
        let h = bmp.height;
        let ghost gw = old(self).grid().width as int;
        let ghost gh = old(self).grid().height as int;
        let ghost cells = old(self).grid().cells@;
        let data = flip_v_raw(w, h, bmp.data);
        let flipped = Bitmap { width: w, height: h, data };
        proof {
            lemma_fundamental_div_mod_converse(2 * gh, 2, gh, 0);
        }
        self.fromimage(flipped, Some(overlay_old));
        proof {
            let fg = self.grid();
            assert forall|x: int, y: int| old(self).grid().in_range(x, y) implies fg.cell_at(x, y)
                == (Cell {
                color: old(self).grid().cell_at(x, y).color,
                backcolor: old(self).grid().cell_at(x, gh - 1 - y).backcolor,
                symbol: old(self).grid().cell_at(x, y).symbol,
            }) by {
                lemma_image_of_px(gw, gh, cells, x, 2 * gh - 1 - 2 * y, 0);
                lemma_image_of_px(gw, gh, cells, x, 2 * gh - 1 - 2 * y, 1);
                lemma_image_of_px(gw, gh, cells, x, 2 * gh - 1 - 2 * y, 2);
                lemma_fundamental_div_mod_converse(2 * gh - 1 - 2 * y, 2, gh - 1 - y, 1);
                old(self).grid().lemma_index_of_in_bounds(x, y);
                old(self).grid().lemma_index_of_in_bounds(x, gh - 1 - y);
            }
        }
    }

    /// Replaces every background with its gray level, after one
    /// snapshot. Foregrounds and symbols stay.
    pub fn grayscale(&mut self)
        requires
            old(self).wf(),
        ensures
            final(self).wf(),
            final(self).in_drag() == old(self).in_drag(),
            final(self).grid().width == old(self).grid().width,
            final(self).grid().height == old(self).grid().height,
            forall|x: int, y: int|
                old(self).grid().in_range(x, y) ==> final(self).grid().cell_at(x, y) == (Cell {
                    color: old(self).grid().cell_at(x, y).color,
                    backcolor: Rgb {
                        r: luma8(old(self).grid().cell_at(x, y).backcolor),
                        g: luma8(old(self).grid().cell_at(x, y).backcolor),
                        b: luma8(old(self).grid().cell_at(x, y).backcolor),
                    },
                    symbol: old(self).grid().cell_at(x, y).symbol,
                }),
            snapshot_pushed(
                old(self).hist(),
                final(self).hist(),
                old(self).grid().width as int,
                old(self).grid().height as int,
                old(self).grid().cells@,
            ),
            final(self).brush_symbol() == old(self).brush_symbol(),
            final(self).cur_tool() == old(self).cur_tool(),
    {
        let bmp = self.toimage();
        let overlay_old = self.get_overlay();
        let w = bmp.width;
        let h = bmp.height;
        let ghost gw = old(self).grid().width as int;
        let ghost gh = old(self).grid().height as int;
        let ghost cells = old(self).grid().cells@;
        let data = grayscale_raw(w, h, bmp.data);
        let gray = Bitmap { width: w, height: h, data };
        proof {
            lemma_fundamental_div_mod_converse(2 * gh, 2, gh, 0);
        }
        self.fromimage(gray, Some(overlay_old));
        proof {
            let fg = self.grid();
            assert forall|x: int, y: int| old(self).grid().in_range(x, y) implies fg.cell_at(x, y)
                == (Cell {
                color: old(self).grid().cell_at(x, y).color,
                backcolor: Rgb {
                    r: luma8(old(self).grid().cell_at(x, y).backcolor),
                    g: luma8(old(self).grid().cell_at(x, y).backcolor),
                    b: luma8(old(self).grid().cell_at(x, y).backcolor),
                },
                symbol: old(self).grid().cell_at(x, y).symbol,
            }) by {
                lemma_image_of_px(gw, gh, cells, x, 2 * y, 0);
                lemma_image_of_px(gw, gh, cells, x, 2 * y, 1);
                lemma_image_of_px(gw, gh, cells, x, 2 * y, 2);
                lemma_fundamental_div_mod_converse(2 * y, 2, y, 0);
                old(self).grid().lemma_index_of_in_bounds(x, y);
            }
        }
    }

    /// Brightens (or, negative, darkens) every background channel by
    /// `value`, clamped to the byte range, after one snapshot.
    /// Foregrounds and symbols stay.
    pub fn brighten(&mut self, value: i32)
        requires
            old(self).wf(),
        ensures
            final(self).wf(),
            final(self).in_drag() == old(self).in_drag(),
            final(self).grid().width == old(self).grid().width,
            final(self).grid().height == old(self).grid().height,
            final(self).grid().cells@ == brightened_cells(old(self).grid().cells@, value as int),
            forall|x: int, y: int|
                old(self).grid().in_range(x, y) ==> final(self).grid().cell_at(x, y) == (Cell {
                    color: old(self).grid().cell_at(x, y).color,
                    backcolor: bright_rgb(old(self).grid().cell_at(x, y).backcolor, value as int),
                    symbol: old(self).grid().cell_at(x, y).symbol,
                }),
            snapshot_pushed(
                old(self).hist(),
                final(self).hist(),
                old(self).grid().width as int,
                old(self).grid().height as int,
                old(self).grid().cells@,
            ),
            final(self).brush_symbol() == old(self).brush_symbol(),
            final(self).cur_tool() == old(self).cur_tool(),
    {
        let bmp = self.toimage();
        let overlay_old = self.get_overlay();
        let w = bmp.width;
        let h = bmp.height;
        let ghost gw = old(self).grid().width as int;
        let ghost gh = old(self).grid().height as int;
        let ghost cells = old(self).grid().cells@;
        let data = brighten_raw(w, h, bmp.data, value);
        let bright = Bitmap { width: w, height: h, data };
        proof {
            lemma_fundamental_div_mod_converse(2 * gh, 2, gh, 0);
        }
        self.fromimage(bright, Some(overlay_old));
        proof {
            let fg = self.grid();
            assert forall|x: int, y: int| old(self).grid().in_range(x, y) implies fg.cell_at(x, y)
                == (Cell {
                color: old(self).grid().cell_at(x, y).color,
                backcolor: bright_rgb(old(self).grid().cell_at(x, y).backcolor, value as int),
                symbol: old(self).grid().cell_at(x, y).symbol,
            }) by {
                lemma_image_of_px(gw, gh, cells, x, 2 * y, 0);
                lemma_image_of_px(gw, gh, cells, x, 2 * y, 1);
                lemma_image_of_px(gw, gh, cells, x, 2 * y, 2);
                lemma_fundamental_div_mod_converse(2 * y, 2, y, 0);
                old(self).grid().lemma_index_of_in_bounds(x, y);
            }
            assert forall|j: int| 0 <= j < fg.cells@.len() implies fg.cells@[j]
                == brightened_cells(cells, value as int)[j] by {
                lemma_fundamental_div_mod(j, gw);
                let x = j % gw;
                let y = j / gw;
                assert(0 <= y < gh && j == y * gw + x) by (nonlinear_arith)
                    requires
                        j == gw * y + x,
                        0 <= x < gw,
                        0 <= j < gw * gh,
                        0 < gw,
                ;
                assert(old(self).grid().in_range(x, y));
                assert(fg.cell_at(x, y) == fg.cells@[j]);
            }
            assert(fg.cells@ =~= brightened_cells(cells, value as int));
        }
    }

    /// Shifts every background's hue around the color wheel by `value`
    /// degrees, with a one-step brightening first to compensate the
    /// darkening the rotation routine is known for. Two snapshots are
    /// taken, one per stage. Foregrounds and symbols stay.
    pub fn huerotate(&mut self, value: i32)
        requires
            old(self).wf(),
        ensures
            final(self).wf(),
            final(self).in_drag() == old(self).in_drag(),
            final(self).grid().width == old(self).grid().width,
            final(self).grid().height == old(self).grid().height,
            forall|x: int, y: int|
                old(self).grid().in_range(x, y) ==> {
                    let hued = hue_rotated(
                        image_of(
                            old(self).grid().width as int,
                            old(self).grid().height as int,
                            brightened_cells(old(self).grid().cells@, 1),
                        ),
                        old(self).grid().width as int,
                        2 * old(self).grid().height as int,
                        value as int,
                    );
                    final(self).grid().cell_at(x, y) == (Cell {
                        color: old(self).grid().cell_at(x, y).color,
                        backcolor: pixel_rgb(
                            hued,
                            old(self).grid().width as int,
                            x,
                            2 * y,
                        ),
                        symbol: old(self).grid().cell_at(x, y).symbol,
                    })
                },
            exists|mid: HistoryStack|
                #[trigger] snapshot_pushed(
                    old(self).hist(),
                    mid,
                    old(self).grid().width as int,
                    old(self).grid().height as int,
                    old(self).grid().cells@,
                ) && snapshot_pushed(
                    mid,
                    final(self).hist(),
                    old(self).grid().width as int,
                    old(self).grid().height as int,
                    brightened_cells(old(self).grid().cells@, 1),
                ),
            final(self).brush_symbol() == old(self).brush_symbol(),
            final(self).cur_tool() == old(self).cur_tool(),
    {
        let ghost gw = old(self).grid().width as int;
        let ghost gh = old(self).grid().height as int;
        let ghost cells = old(self).grid().cells@;
        self.brighten(1);
        let ghost mid_cells = self.grid().cells@;
        let bmp = self.toimage();
        let overlay_old = self.get_overlay();
        let w = bmp.width;
        let h = bmp.height;
        let data = huerotate_raw(w, h, bmp.data, value);
        let hued_bmp = Bitmap { width: w, height: h, data };
        proof {
            lemma_fundamental_div_mod_converse(2 * gh, 2, gh, 0);
        }
        self.fromimage(hued_bmp, Some(overlay_old));
        proof {
            let fg = self.grid();
            let hued = hue_rotated(image_of(gw, gh, brightened_cells(cells, 1)), gw, 2 * gh, value as int);
            assert forall|x: int, y: int| old(self).grid().in_range(x, y) implies fg.cell_at(x, y)
                == (Cell {
                color: old(self).grid().cell_at(x, y).color,
                backcolor: pixel_rgb(hued, gw, x, 2 * y),
                symbol: old(self).grid().cell_at(x, y).symbol,
            }) by {
                lemma_fundamental_div_mod_converse(2 * y, 2, y, 0);
                old(self).grid().lemma_index_of_in_bounds(x, y);
                assert(mid_cells[y * gw + x] == brightened_cells(cells, 1)[y * gw + x]);
            }
        }
    }

    /// Turns the background picture a quarter turn clockwise, after one
    /// snapshot. The new board is a fresh load of the rotated bitmap:
    /// rotation changes the grid's shape, so the old foregrounds and
    /// symbols cannot be realigned and are discarded by design. A
    /// rotated picture too wide for the import limit is scaled to fit.
    pub fn rotate90(&mut self)
        requires
            old(self).wf(),
        ensures
            final(self).wf(),
            final(self).in_drag() == old(self).in_drag(),
            snapshot_pushed(
                old(self).hist(),
                final(self).hist(),
                old(self).grid().width as int,
                old(self).grid().height as int,
                old(self).grid().cells@,
            ),
            final(self).brush_symbol() == old(self).brush_symbol(),
            final(self).cur_tool() == old(self).cur_tool(),
            2 * old(self).grid().height <= IMPORT_LIMIT && old(self).grid().width <= IMPORT_LIMIT
                ==> {
                &&& final(self).grid().width == 2 * old(self).grid().height
                &&& final(self).grid().height == fresh_height(old(self).grid().width as int)
                &&& forall|x: int, y: int|
                    final(self).grid().in_range(x, y) ==> final(self).grid().cell_at(x, y)
                        == (Cell {
                        color: white(),
                        backcolor: old(self).grid().cells@[((2 * old(self).grid().height - 1 - x)
                            / 2) * (old(self).grid().width as int) + 2 * y].backcolor,
                        symbol: ' ',
                    })
            },
            !(2 * old(self).grid().height <= IMPORT_LIMIT && old(self).grid().width
                <= IMPORT_LIMIT) ==> {
                &&& 1 <= final(self).grid().width <= IMPORT_LIMIT
                &&& 1 <= final(self).grid().height <= IMPORT_HEIGHT_LIMIT
            },
    {
        let bmp = self.toimage();
        let w = bmp.width;
        let h = bmp.height;
        let ghost gw = old(self).grid().width as int;
        let ghost gh = old(self).grid().height as int;
        let ghost cells = old(self).grid().cells@;
        let rot = rotate90_raw(w, h, bmp.data);
        self.fromimage(rot, None);
        proof {
            if 2 * gh <= IMPORT_LIMIT && gw <= IMPORT_LIMIT {
                let fg = self.grid();
                assert forall|x: int, y: int| fg.in_range(x, y) implies fg.cell_at(x, y) == (Cell {
                    color: white(),
                    backcolor: cells[((2 * gh - 1 - x) / 2) * gw + 2 * y].backcolor,
                    symbol: ' ',
                }) by {
                    lemma_fundamental_div_mod(gw, 2);
                    lemma_image_of_px(gw, gh, cells, 2 * y, 2 * gh - 1 - x, 0);
                    lemma_image_of_px(gw, gh, cells, 2 * y, 2 * gh - 1 - x, 1);
                    lemma_image_of_px(gw, gh, cells, 2 * y, 2 * gh - 1 - x, 2);
                }
            } else {
                lemma_fundamental_div_mod(self.grid().height as int, 2);
            }
        }
    }

    /// The board's glyphs as plain text: symbols row-major, a newline
    /// after each row's last cell. Colors are not represented.
    pub fn totext(&mut self) -> (r: String)
        requires
            old(self).wf(),
        ensures
            *final(self) == *old(self),
            r@ == text_of(old(self).grid().width as int, old(self).grid().cells@),
    {
        let chars = encode_text(&self.board);
        string_from_chars(&chars)
    }

    /// The board serialized as project text, keeping colors and symbols.
    pub fn tofile(&mut self) -> (r: String)
        requires
            old(self).wf(),
        ensures
            *final(self) == *old(self),
            r@ == project_text_of(
                old(self).grid().width as int,
                old(self).grid().height as int,
                old(self).grid().cells@,
            ),
    {
        let chars = encode_project(&self.board);
        string_from_chars(&chars)
    }

    /// Replaces the board with the one the project text encodes. A
    /// malformed text reports its error and changes nothing: there is no
    /// partial load, and no input panics. No snapshot is taken.
    pub fn fromfile(&mut self, text: String) -> (r: Result<(), FormatError>)
        requires
            old(self).wf(),
        ensures
            final(self).wf(),
            final(self).in_drag() == old(self).in_drag(),
            final(self).hist() == old(self).hist(),
            final(self).brush_symbol() == old(self).brush_symbol(),
            final(self).cur_tool() == old(self).cur_tool(),
            match r {
                Ok(u) => spec_decode(text@) == Ok::<(int, int, Seq<Cell>), FormatError>(
                    (
                        final(self).grid().width as int,
                        final(self).grid().height as int,
                        final(self).grid().cells@,
                    ),
                ),
                Err(e) => spec_decode(text@) == Err::<(int, int, Seq<Cell>), FormatError>(e)
                    && final(self).grid() == old(self).grid(),
            },
    {
        let chars = chars_of(text.as_str());
        match decode_project(&chars) {
            Ok(board) => {
                self.board = board;
                Ok(())
            },
            Err(e) => Err(e),
        }
    }

    /// The board width as the UI reports it.
    pub fn get_width(&mut self) -> (w: u32)
        requires
            old(self).wf(),
        ensures
            *final(self) == *old(self),
            w == old(self).grid().width,
    {
        self.board.width as u32
    }

    /// The board height as the UI reports it.
    pub fn get_height(&mut self) -> (h: u32)
        requires
            old(self).wf(),
        ensures
            *final(self) == *old(self),
            h == old(self).grid().height,
    {
        self.board.height as u32
    }

    /// A defensive copy of the board's cells, row-major.
    pub fn get_overlay(&mut self) -> (overlay: Vec<Cell>)
        requires
            old(self).wf(),
        ensures
            *final(self) == *old(self),
            overlay@ == old(self).grid().cells@,
    {
        let copy = self.board.duplicate();
        copy.cells
    }

    /// How many cells the board holds.
    pub fn get_overlay_len(&mut self) -> (n: u32)
        requires
            old(self).wf(),
        ensures
            *final(self) == *old(self),
            n == old(self).grid().cells@.len(),
    {
        proof {
            self.board.lemma_index_of_in_bounds(0, 0);
        }
        self.board.cells.len() as u32
    }

    /// A defensive copy of the whole board.
    pub fn get_board(&mut self) -> (board: Board)
        requires
            old(self).wf(),
        ensures
            *final(self) == *old(self),
            board.wf(),
            board_eq(&board, &old(self).grid()),
    {
        self.board.duplicate()
    }

    fn get_width_usize(&self) -> (w: usize)
        ensures
            w == self.grid().width,
    {
        self.board.width
    }

    fn get_height_usize(&self) -> (h: usize)
        ensures
            h == self.grid().height,
    {
        self.board.height
    }
}

/// One in-range paint step of a pointer drag: what a Hold event at
/// `(x, y)` does to a well-formed canvas. The gesture's first step
/// pushes the board as it was onto the history; later steps leave the
/// history alone; every step paints one cell with the brush and leaves
/// the canvas mid-drag.
pub open spec fn drag_hold_step(
    pre: CanvasView,
    post: CanvasView,
    x: int,
    y: int,
    brush: Brush,
) -> bool {
    &&& pre.wf()
    &&& post.wf()
    &&& pre.grid().in_range(x, y)
    &&& post.grid().width == pre.grid().width
    &&& post.grid().height == pre.grid().height
    &&& post.grid().cells@ == pre.grid().cells@.update(
        pre.grid().spec_index_of(x, y),
        Cell { color: brush.color, backcolor: brush.backcolor, symbol: pre.brush_symbol() },
    )
    &&& post.brush_symbol() == pre.brush_symbol()
    &&& post.cur_tool() == pre.cur_tool()
    &&& post.in_drag()
    &&& !pre.in_drag() ==> snapshot_pushed(
        pre.hist(),
        post.hist(),
        pre.grid().width as int,
        pre.grid().height as int,
        pre.grid().cells@,
    )
    &&& pre.in_drag() ==> post.hist() == pre.hist()
}

/// Law: a whole pointer drag is one undo step. However many in-range
/// paints a gesture chains from a canvas not yet mid-drag, the newest
/// history entry is the board as it was before the drag's first paint;
/// releasing keeps the history, so one `back` restores the pre-drag
/// picture.
pub proof fn lemma_drag_is_one_undo_step(
    states: Seq<CanvasView>,
    xs: Seq<int>,
    ys: Seq<int>,
    brushes: Seq<Brush>,
)
    requires
        states.len() >= 2,
        xs.len() == states.len() - 1,
        ys.len() == states.len() - 1,
        brushes.len() == states.len() - 1,
        !states[0].in_drag(),
        forall|i: int|
            0 <= i < states.len() - 1 ==> #[trigger] drag_hold_step(
                states[i],
                states[i + 1],
                xs[i],
                ys[i],
                brushes[i],
            ),
    ensures
        states.last().hist().snapshots().len() > 0,
        board_eq(&states.last().hist().snapshots().last(), &states[0].grid()),
        states.last().in_drag(),
    decreases states.len(),
{
    if states.len() == 2 {
        let i0: int = 0;
        assert(drag_hold_step(states[i0], states[i0 + 1], xs[i0], ys[i0], brushes[i0]));
    } else {
        let n = states.len() as int;
        lemma_drag_is_one_undo_step(
            states.drop_last(),
            xs.drop_last(),
            ys.drop_last(),
            brushes.drop_last(),
        );
        let j: int = n - 2;
        assert(drag_hold_step(states[j], states[j + 1], xs[j], ys[j], brushes[j]));
        assert(states.drop_last().last() == states[n - 2]);
    }
}

/// Law: filling the whole canvas and then undoing restores the board
/// exactly. `filled` is any state `fill_all` may leave a well-formed
/// canvas `before` in, and `undone` any state `back` may then leave
/// `filled` in; the undone board equals the original, cell for cell.
pub proof fn lemma_fill_then_undo(before: CanvasView, filled: CanvasView, undone: CanvasView)
    requires
        before.wf(),
        filled.wf(),
        snapshot_pushed(
            before.hist(),
            filled.hist(),
            before.grid().width as int,
            before.grid().height as int,
            before.grid().cells@,
        ),
        filled.hist().snapshots().len() > 0,
        undone.grid() == filled.hist().snapshots().last(),
    ensures
        board_eq(&undone.grid(), &before.grid()),
{
}

/// `after` is `before` with a snapshot of the given picture pushed on
/// top, the oldest entry evicted first when `before` was full.
pub open spec fn snapshot_pushed(
    before: HistoryStack,
    after: HistoryStack,
    width: int,
    height: int,
    cells: Seq<Cell>,
) -> bool {
    &&& after.snapshots().len() <= HISTORY_CAPACITY
    &&& after.snapshots().len() > 0
    &&& after.snapshots().last().width == width
    &&& after.snapshots().last().height == height
    &&& after.snapshots().last().cells@ == cells
    &&& before.snapshots().len() < HISTORY_CAPACITY ==> after.snapshots().drop_last()
        == before.snapshots() && after.snapshots().len() == before.snapshots().len() + 1
    &&& before.snapshots().len() == HISTORY_CAPACITY ==> after.snapshots().drop_last()
        == before.snapshots().subrange(1, HISTORY_CAPACITY as int) && after.snapshots().len()
        == HISTORY_CAPACITY
}

} // verus!
