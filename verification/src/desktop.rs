//! The desktop: its wallpaper and its icons, laid out on a grid.
use vstd::prelude::*;
use crate::geometry::{cast_usize_i32, div_rem_i32, fits_i32, trunc_div, trunc_rem, usize_as_i32};
use crate::text::owned;

verus! {

/// The grid the desktop icons are laid out on, row by row.
pub struct DesktopGrid {
    pub start_x: i32,
    pub start_y: i32,
    pub cell_width: i32,
    pub cell_height: i32,
    pub columns: i32,
}

/// The cell of the `index`-th icon, as `(column, row)`.
pub open spec fn cell_of(g: DesktopGrid, index: usize) -> (int, int) {
    let i = usize_as_i32(index);
    (trunc_rem(i, g.columns as int), trunc_div(i, g.columns as int))
}

/// The top-left corner of the `index`-th icon.
pub open spec fn grid_position(g: DesktopGrid, index: usize) -> (int, int) {
    let (c, r) = cell_of(g, index);
    (g.start_x + c * g.cell_width, g.start_y + r * g.cell_height)
}

/// Laying out the `index`-th icon stays within `i32`: the grid has columns,
/// and the arithmetic does not overflow.
pub open spec fn position_fits(g: DesktopGrid, index: usize) -> bool {
    let i = usize_as_i32(index);
    let (c, r) = cell_of(g, index);
    &&& g.columns != 0
    &&& !(i == i32::MIN && g.columns == -1)
    &&& fits_i32(c * g.cell_width)
    &&& fits_i32(r * g.cell_height)
    &&& fits_i32(g.start_x + c * g.cell_width)
    &&& fits_i32(g.start_y + r * g.cell_height)
}

/// The grid icons are laid out on by default.
pub open spec fn default_grid() -> DesktopGrid {
    DesktopGrid { start_x: 40, start_y: 40, cell_width: 120, cell_height: 120, columns: 8 }
}

impl DesktopGrid {
    /// Eight columns of 120 x 120 pixel cells, starting 40 pixels in.
    pub fn new() -> (r: Self)
        ensures
            r == default_grid(),
    {
        DesktopGrid { start_x: 40, start_y: 40, cell_width: 120, cell_height: 120, columns: 8 }
    }

    /// The top-left corner of the `index`-th icon: icons fill the grid row
    /// by row, `columns` to a row.
    pub fn get_position(&self, index: usize) -> (r: (i32, i32))
        requires
            position_fits(*self, index),
        ensures
            (r.0 as int, r.1 as int) == grid_position(*self, index),
    {
        let i = cast_usize_i32(index);
        let (row, column) = div_rem_i32(i, self.columns);
        let x = self.start_x + column * self.cell_width;
        let y = self.start_y + row * self.cell_height;
        (x, y)
    }
}

/// An icon on the desktop.
pub struct DesktopIcon {
    pub name: String,
    pub image: String,
    pub app_name: String,
    pub x: i32,
    pub y: i32,
}

impl DesktopIcon {
    /// An icon with the given labels at `(x, y)`.
    pub fn new(name: &str, image: &str, app_name: &str, x: i32, y: i32) -> (r: Self)
        ensures
            r.name@ == name@,
            r.image@ == image@,
            r.app_name@ == app_name@,
            r.x == x,
            r.y == y,
    {
        DesktopIcon { name: owned(name), image: owned(image), app_name: owned(app_name), x, y }
    }
}

/// The desktop: its wallpaper, its icons and their grid.
pub struct Desktop {
    pub wallpaper: String,
    pub icons: Vec<DesktopIcon>,
    pub grid: DesktopGrid,
}

impl Desktop {
    /// The default wallpaper, no icon, the default grid.
    pub fn new() -> (r: Self)
        ensures
            r.wallpaper@ == "default_wallpaper.png"@,
            r.icons@.len() == 0,
            r.grid == default_grid(),
    {
        Desktop { wallpaper: owned("default_wallpaper.png"), icons: Vec::new(), grid: DesktopGrid::new() }
    }

    /// Adds an icon in the next free cell of the grid.
    pub fn add_icon(&mut self, name: &str, image: &str, app_name: &str)
        requires
            position_fits(old(self).grid, old(self).icons@.len() as usize),
        ensures
            final(self).icons@.len() == old(self).icons@.len() + 1,
            final(self).icons@.drop_last() == old(self).icons@,
            ({
                let ic = final(self).icons@.last();
                let p = grid_position(old(self).grid, old(self).icons@.len() as usize);
                &&& ic.name@ == name@
                &&& ic.image@ == image@
                &&& ic.app_name@ == app_name@
                &&& ic.x == p.0
                &&& ic.y == p.1
            }),
            final(self).grid == old(self).grid,
            final(self).wallpaper == old(self).wallpaper,
    {
        let (x, y) = self.grid.get_position(self.icons.len());
        let icon = DesktopIcon::new(name, image, app_name, x, y);
        self.icons.push(icon);
        assert(self.icons@.drop_last() =~= old(self).icons@);
    }
}

} // verus!

verus! {

/// How a desktop icon is listed: its name and position.
pub open spec fn icon_line(ic: DesktopIcon) -> Seq<char> {
    ic.name@ + " at ("@ + crate::text::int_text(ic.x as int) + ", "@ + crate::text::int_text(ic.y as int) + ")"@
}

impl Desktop {
    /// The lines listing the icons: a header, then one icon per line.
    pub fn list_icons(&self) -> (r: Vec<String>)
        ensures
            crate::text::string_views(r@) == seq!["Desktop Icons:"@] + self.icons@.map_values(
                |ic: DesktopIcon| icon_line(ic),
            ),
    {
        let mut r: Vec<String> = Vec::new();
        crate::text::push_line(&mut r, owned("Desktop Icons:"));
        let mut k: usize = 0;
        while k < self.icons.len()
            invariant
                k <= self.icons@.len(),
                crate::text::string_views(r@) == seq!["Desktop Icons:"@] + self.icons@.take(k as int).map_values(
                    |ic: DesktopIcon| icon_line(ic),
                ),
            decreases self.icons@.len() - k,
        {
            let ic = &self.icons[k];
            let mut line = crate::text::concat(ic.name.as_str(), " at (");
            crate::text::append(&mut line, crate::text::i32_to_string(ic.x).as_str());
            crate::text::append(&mut line, ", ");
            crate::text::append(&mut line, crate::text::i32_to_string(ic.y).as_str());
            crate::text::append(&mut line, ")");
            crate::text::push_line(&mut r, line);
            assert(self.icons@.take(k + 1).map_values(|ic: DesktopIcon| icon_line(ic)) =~= self.icons@.take(
                k as int,
            ).map_values(|ic: DesktopIcon| icon_line(ic)).push(icon_line(self.icons@[k as int])));
            k = k + 1;
        }
        assert(self.icons@.take(k as int) =~= self.icons@);
        r
    }
}

} // verus!

verus! {

/// On the default grid, icons at two different places in the list (both
/// within the first 2^31) get different positions: no two icons overlap.
pub proof fn lemma_default_grid_positions_distinct(i: usize, j: usize)
    requires
        i < 0x8000_0000,
        j < 0x8000_0000,
        i != j,
    ensures
        grid_position(default_grid(), i) != grid_position(default_grid(), j),
{
    let g = default_grid();
    assert(usize_as_i32(i) == i as int);
    assert(usize_as_i32(j) == j as int);
    let (ci, ri) = (i as int % 8, i as int / 8);
    let (cj, rj) = (j as int % 8, j as int / 8);
    assert(cell_of(g, i) == (ci, ri));
    assert(cell_of(g, j) == (cj, rj));
    assert(i as int == 8 * ri + ci && 0 <= ci < 8) by (nonlinear_arith)
        requires
            i >= 0,
            ci == i as int % 8,
            ri == i as int / 8,
    ;
    assert(j as int == 8 * rj + cj && 0 <= cj < 8) by (nonlinear_arith)
        requires
            j >= 0,
            cj == j as int % 8,
            rj == j as int / 8,
    ;
    if grid_position(g, i) == grid_position(g, j) {
        assert(ci * 120 == cj * 120);
        assert(ri * 120 == rj * 120);
        assert(ci == cj && ri == rj) by (nonlinear_arith)
            requires
                ci * 120 == cj * 120,
                ri * 120 == rj * 120,
        ;
    }
}

} // verus!
