//! The color picker model: a rectangle whose columns sweep saturation
//! and whose rows sweep value at one chosen hue, clicked to set the
//! brush colors.

use vstd::prelude::*;

use crate::canvas::Brush;
use crate::color::{hsv_to_rgb, spec_hsv_to_rgb};
use crate::grid::Rgb;

verus! {

/// A saturation/value swatch at one hue. The hue runs in degrees
/// around the color wheel; width and height are the swatch's size on
/// screen in cells.
pub struct PickView {
    pub hue: u16,
    pub width: u8,
    pub height: u8,
}

impl PickView {
    /// The selected hue, in degrees.
    pub open spec fn cur_hue(&self) -> u16 {
        self.hue
    }

    /// The saturation, in thousandths, of the swatch column `x`.
    pub open spec fn sat_at(&self, x: int) -> int {
        1000 * x / (self.width as int)
    }

    /// The value, in thousandths, of the swatch row `y`: full at the
    /// top, darkening downwards.
    pub open spec fn val_at(&self, y: int) -> int {
        1000 - 1000 * y / (self.height as int)
    }

    /// The color shown at swatch position `(x, y)`.
    pub open spec fn color_at_spec(&self, x: int, y: int) -> (u8, u8, u8) {
        spec_hsv_to_rgb(self.cur_hue() as int, self.sat_at(x), self.val_at(y))
    }

    /// A fresh swatch of the given size, at the zero hue.
    pub fn new(width: u8, height: u8) -> (picker: PickView)
        ensures
            picker.cur_hue() == 0,
            picker.width == width,
            picker.height == height,
    {
        let hue = 0 as u16;
        PickView { hue, width, height }
    }

    /// Selects the hue, in degrees.
    pub fn set_hue(&mut self, h: u16)
        ensures
            final(self).cur_hue() == h,
            final(self).width == old(self).width,
            final(self).height == old(self).height,
    {
        self.hue = h;
    }

    /// The color shown at swatch position `(x, y)`.
    pub fn color_at(&self, x: u8, y: u8) -> (rgb: (u8, u8, u8))
        requires
            x < self.width,
            y < self.height,
        ensures
            rgb == self.color_at_spec(x as int, y as int),
    {
        proof {
            vstd::arithmetic::div_mod::lemma_div_is_ordered(
                1000 * (x as int),
                1000 * (self.width as int),
                self.width as int,
            );
            vstd::arithmetic::div_mod::lemma_div_by_multiple(1000, self.width as int);
            vstd::arithmetic::div_mod::lemma_div_is_ordered(
                1000 * (y as int),
                1000 * (self.height as int),
                self.height as int,
            );
            vstd::arithmetic::div_mod::lemma_div_by_multiple(1000, self.height as int);
            vstd::arithmetic::div_mod::lemma_div_pos_is_pos(1000 * (y as int), self.height as int);
            assert(1000 * (x as int) <= 1000 * (self.width as int) && 1000 * (y as int) <= 1000
                * (self.height as int)) by (nonlinear_arith)
                requires
                    x < self.width,
                    y < self.height,
            ;
        }
        let sat: u16 = (1000 * (x as u32) / (self.width as u32)) as u16;
        let val: u16 = (1000 - 1000 * (y as u32) / (self.height as u32)) as u16;
        hsv_to_rgb(self.hue, sat, val)
    }

    /// A click at `(x, y)`: copies the shown color into the brush, the
    /// left button (foreground false) setting the background and the
    /// right setting the foreground, as the painter's palette does. A
    /// click outside the swatch changes nothing.
    pub fn pick(&self, x: u8, y: u8, foreground: bool, brush: &mut Brush) -> (picked: bool)
        ensures
            picked == (x < self.width && y < self.height),
            picked && foreground ==> {
                let (r, g, b) = self.color_at_spec(x as int, y as int);
                final(brush).color == (Rgb { r, g, b }) && final(brush).backcolor == old(
                    brush,
                ).backcolor
            },
            picked && !foreground ==> {
                let (r, g, b) = self.color_at_spec(x as int, y as int);
                final(brush).backcolor == (Rgb { r, g, b }) && final(brush).color == old(
                    brush,
                ).color
            },
            !picked ==> *final(brush) == *old(brush),
    {
        if x < self.width && y < self.height {
            let (r, g, b) = self.color_at(x, y);
            if foreground {
                brush.color = Rgb { r, g, b };
            } else {
                brush.backcolor = Rgb { r, g, b };
            }
            true
        } else {
            false
        }
    }
}

} // verus!
