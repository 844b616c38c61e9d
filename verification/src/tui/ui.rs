//! Layout arithmetic of the board: which columns and cards are in view, and how text is
//! shortened to fit.

use vstd::prelude::*;

use crate::storage::path_text::{components_of, path_key, vec_views};
use crate::text::{owned, push_char, push_str, string_from_chars};

verus! {

pub const MIN_TERMINAL_WIDTH: u16 = 50;

pub const MIN_TERMINAL_HEIGHT: u16 = 14;

pub const MIN_COLUMN_WIDTH: u16 = 28;

pub const MAX_COLUMN_WIDTH: u16 = 42;

pub const MAX_VISIBLE_COLUMNS: usize = 4;

pub const COLUMN_GAP: u16 = 1;

pub const DETAIL_BREAKPOINT: u16 = 120;

/// A rectangle of terminal cells.
#[derive(Debug, Clone, Copy, PartialEq, Eq, Structural)]
pub struct Rect {
    pub x: u16,
    pub y: u16,
    pub width: u16,
    pub height: u16,
}

/// Where the card details are shown.
#[derive(Debug, Clone, Copy, PartialEq, Eq, Structural)]
pub enum DetailPlacement {
    Closed,
    Panel,
    Overlay,
}

/// Details are a side panel on wide terminals and an overlay otherwise.
pub fn detail_placement(area_width: u16, detail_open: bool) -> (p: DetailPlacement)
    ensures
        p == (if !detail_open {
            DetailPlacement::Closed
        } else if area_width >= DETAIL_BREAKPOINT {
            DetailPlacement::Panel
        } else {
            DetailPlacement::Overlay
        }),
{
    if !detail_open {
        DetailPlacement::Closed
    } else if area_width >= DETAIL_BREAKPOINT {
        DetailPlacement::Panel
    } else {
        DetailPlacement::Overlay
    }
}

/// The width of the detail panel: a third of the terminal, between 36 and 48 cells.
pub fn detail_width(area_width: u16) -> (w: u16)
    ensures
        w == (if area_width / 3 < 36 {
            36
        } else if area_width / 3 > 48 {
            48
        } else {
            area_width / 3
        }),
{
    let third = area_width / 3;
    if third < 36 {
        36
    } else if third > 48 {
        48
    } else {
        third
    }
}

/// How many columns fit completely on a board of the given width (at least one, at most
/// four, at most the number of columns), and the width each gets.
pub open spec fn fitted_columns(board_width: u16, column_count: usize) -> (usize, u16) {
    let possible_raw = (board_width + COLUMN_GAP) / (MIN_COLUMN_WIDTH + COLUMN_GAP);
    let possible = if possible_raw < 1 { 1 } else { possible_raw };
    let wanted = if column_count < 1 {
        1
    } else if column_count > MAX_VISIBLE_COLUMNS {
        MAX_VISIBLE_COLUMNS as int
    } else {
        column_count as int
    };
    let visible = if wanted < possible { wanted } else { possible };
    let gaps = COLUMN_GAP * (visible - 1);
    let available = if board_width >= gaps { board_width - gaps } else { 0 };
    let raw = available / visible;
    let low = if MIN_COLUMN_WIDTH < board_width { MIN_COLUMN_WIDTH as int } else { board_width as int };
    let width = if raw < low { low } else if raw > MAX_COLUMN_WIDTH { MAX_COLUMN_WIDTH as int } else { raw };
    (visible as usize, width as u16)
}

pub fn fit_columns(board_width: u16, column_count: usize) -> (r: (usize, u16))
    ensures
        r == fitted_columns(board_width, column_count),
        1 <= r.0 <= MAX_VISIBLE_COLUMNS,
        r.1 <= MAX_COLUMN_WIDTH,
{
    let possible_raw: u32 = (board_width as u32 + COLUMN_GAP as u32) / (MIN_COLUMN_WIDTH as u32
        + COLUMN_GAP as u32);
    let possible: usize = if possible_raw < 1 { 1 } else { possible_raw as usize };
    let wanted: usize = if column_count < 1 {
        1
    } else if column_count > MAX_VISIBLE_COLUMNS {
        MAX_VISIBLE_COLUMNS
    } else {
        column_count
    };
    let visible: usize = if wanted < possible { wanted } else { possible };
    let gaps: u32 = COLUMN_GAP as u32 * (visible as u32 - 1);
    let available: u32 = if board_width as u32 >= gaps { board_width as u32 - gaps } else { 0 };
    let raw: u32 = available / visible as u32;
    let low: u32 = if MIN_COLUMN_WIDTH < board_width { MIN_COLUMN_WIDTH as u32 } else { board_width as u32 };
    let width: u32 = if raw < low { low } else if raw > MAX_COLUMN_WIDTH as u32 { MAX_COLUMN_WIDTH as u32 } else { raw };
    (visible, width as u16)
}

/// Where each part of the board screen goes: a two-line header, the board (beside the
/// detail panel when there is one), a status line and a footer line.
#[derive(Debug, Clone, Copy, PartialEq, Eq, Structural)]
pub struct BoardAreas {
    pub header: Rect,
    pub board: Rect,
    pub detail: Option<Rect>,
    pub status: Rect,
    pub footer: Rect,
    pub visible_columns: usize,
    pub column_width: u16,
    pub placement: DetailPlacement,
}

/// The board screen of an area: `None` when the terminal is smaller than the board needs.
pub open spec fn board_areas_of(area: Rect, column_count: usize, detail_open: bool) -> Option<BoardAreas> {
    if area.width < MIN_TERMINAL_WIDTH || area.height < MIN_TERMINAL_HEIGHT {
        None
    } else {
        let content_height = (area.height - 4) as u16;
        let content_y = (area.y + 2) as u16;
        let placement = if !detail_open {
            DetailPlacement::Closed
        } else if area.width >= DETAIL_BREAKPOINT {
            DetailPlacement::Panel
        } else {
            DetailPlacement::Overlay
        };
        let dw = if area.width / 3 < 36 {
            36u16
        } else if area.width / 3 > 48 {
            48u16
        } else {
            (area.width / 3) as u16
        };
        let board = if placement == DetailPlacement::Panel {
            Rect { x: area.x, y: content_y, width: (area.width - 1 - dw) as u16, height: content_height }
        } else {
            Rect { x: area.x, y: content_y, width: area.width, height: content_height }
        };
        let detail = if placement == DetailPlacement::Panel {
            Some(Rect { x: (area.x + area.width - dw) as u16, y: content_y, width: dw, height: content_height })
        } else {
            None
        };
        let fitted = fitted_columns(board.width, column_count);
        Some(
            BoardAreas {
                header: Rect { x: area.x, y: area.y, width: area.width, height: 2 },
                board,
                detail,
                status: Rect { x: area.x, y: (area.y + area.height - 2) as u16, width: area.width, height: 1 },
                footer: Rect { x: area.x, y: (area.y + area.height - 1) as u16, width: area.width, height: 1 },
                visible_columns: fitted.0,
                column_width: fitted.1,
                placement,
            },
        )
    }
}

/// Lays out the board screen in an area, or `None` when the area is too small.
pub fn board_areas(area: Rect, column_count: usize, detail_open: bool) -> (r: Option<BoardAreas>)
    requires
        area.x + area.width <= u16::MAX,
        area.y + area.height <= u16::MAX,
    ensures
        r == board_areas_of(area, column_count, detail_open),
{
    if area.width < MIN_TERMINAL_WIDTH || area.height < MIN_TERMINAL_HEIGHT {
        return None;
    }
    let content_height = area.height - 4;
    let content_y = area.y + 2;
    let placement = detail_placement(area.width, detail_open);
    let dw = detail_width(area.width);
    let board = if placement == DetailPlacement::Panel {
        Rect { x: area.x, y: content_y, width: area.width - 1 - dw, height: content_height }
    } else {
        Rect { x: area.x, y: content_y, width: area.width, height: content_height }
    };
    let detail = if placement == DetailPlacement::Panel {
        Some(Rect { x: area.x + area.width - dw, y: content_y, width: dw, height: content_height })
    } else {
        None
    };
    let (visible_columns, column_width) = fit_columns(board.width, column_count);
    Some(
        BoardAreas {
            header: Rect { x: area.x, y: area.y, width: area.width, height: 2 },
            board,
            detail,
            status: Rect { x: area.x, y: area.y + area.height - 2, width: area.width, height: 1 },
            footer: Rect { x: area.x, y: area.y + area.height - 1, width: area.width, height: 1 },
            visible_columns,
            column_width,
            placement,
        },
    )
}

/// `a + b`, or `u16::MAX` where that is larger.
pub open spec fn saturated(a: int, b: int) -> int {
    if a + b > u16::MAX {
        u16::MAX as int
    } else {
        a + b
    }
}

/// The area of the column in slot `index` of the board, `width` wide, after a gap.
pub open spec fn slot_area(board: Rect, width: u16, index: int) -> Rect {
    Rect {
        x: saturated(board.x as int, index * (width + COLUMN_GAP)) as u16,
        y: board.y,
        width,
        height: board.height,
    }
}

/// The areas of the first `n` slots that end within the board.
pub open spec fn slot_areas(board: Rect, width: u16, n: int) -> Seq<Rect>
    decreases n,
{
    if n <= 0 {
        Seq::empty()
    } else {
        let area = slot_area(board, width, n - 1);
        if saturated(area.x as int, width as int) <= saturated(board.x as int, board.width as int) {
            slot_areas(board, width, n - 1).push(area)
        } else {
            slot_areas(board, width, n - 1)
        }
    }
}

/// The areas of the visible columns, side by side from the left of the board with a gap
/// between them; a column that would end past the board is left out.
pub fn column_areas(board: Rect, visible: usize, width: u16) -> (r: Vec<Rect>)
    requires
        visible * (width + COLUMN_GAP) <= u16::MAX,
    ensures
        r@ == slot_areas(board, width, visible as int),
{
    let mut areas: Vec<Rect> = Vec::new();
    let mut index: usize = 0;
    while index < visible
        invariant
            index <= visible,
            visible * (width + COLUMN_GAP) <= u16::MAX,
            areas@ == slot_areas(board, width, index as int),
        decreases visible - index,
    {
        assert(index * (width + COLUMN_GAP) <= visible * (width + COLUMN_GAP) && width + COLUMN_GAP
            <= visible * (width + COLUMN_GAP) && index < 0x10000) by (nonlinear_arith)
            requires
                index < visible,
                visible * (width + COLUMN_GAP) <= u16::MAX,
                width >= 0,
        ;
        let step: u16 = width + COLUMN_GAP;
        let offset: u16 = (index as u16) * step;
        let x = board.x.saturating_add(offset);
        let area = Rect { x, y: board.y, width, height: board.height };
        assert(area == slot_area(board, width, index as int));
        if x.saturating_add(width) <= board.x.saturating_add(board.width) {
            areas.push(area);
        }
        index = index + 1;
    }
    areas
}

/// A centred rectangle of at most the preferred size, leaving a margin in the area.
pub fn modal_area(area: Rect, preferred_width: u16, preferred_height: u16) -> (r: Rect)
    requires
        area.x + area.width <= u16::MAX,
        area.y + area.height <= u16::MAX,
    ensures
        ({
            let wmax = if area.width >= 4 { area.width - 4 } else { 0 };
            let hmax = if area.height >= 2 { area.height - 2 } else { 0 };
            let w0 = if preferred_width < wmax { preferred_width as int } else { wmax as int };
            let h0 = if preferred_height < hmax { preferred_height as int } else { hmax as int };
            let w = if w0 < 1 { 1 } else { w0 };
            let h = if h0 < 1 { 1 } else { h0 };
            &&& r.width == w
            &&& r.height == h
            &&& r.x == area.x + (if area.width >= w { area.width - w } else { 0 }) / 2
            &&& r.y == area.y + (if area.height >= h { area.height - h } else { 0 }) / 2
        }),
{
    let wmax: u16 = if area.width >= 4 { area.width - 4 } else { 0 };
    let hmax: u16 = if area.height >= 2 { area.height - 2 } else { 0 };
    let w0: u16 = if preferred_width < wmax { preferred_width } else { wmax };
    let h0: u16 = if preferred_height < hmax { preferred_height } else { hmax };
    let width: u16 = if w0 < 1 { 1 } else { w0 };
    let height: u16 = if h0 < 1 { 1 } else { h0 };
    let dx: u16 = if area.width >= width { area.width - width } else { 0 };
    let dy: u16 = if area.height >= height { area.height - height } else { 0 };
    Rect { x: area.x + dx / 2, y: area.y + dy / 2, width, height }
}

/// Which columns and cards are scrolled into view.
#[derive(Debug, PartialEq, Eq)]
pub struct ViewportState {
    pub first_column: usize,
    pub card_offsets: Vec<usize>,
}

impl Default for ViewportState {
    fn default() -> (v: Self)
        ensures
            v.first_column == 0,
            v.card_offsets@.len() == 0,
    {
        ViewportState { first_column: 0, card_offsets: Vec::new() }
    }
}

impl ViewportState {
    /// Swaps the card offsets of two columns, as when a column is moved one place; offsets of
    /// columns not tracked stay as they are.
    pub fn swap_offsets(&mut self, a: usize, b: usize)
        ensures
            final(self).first_column == old(self).first_column,
            final(self).card_offsets@ == (if a < old(self).card_offsets@.len() && b
                < old(self).card_offsets@.len() {
                old(self).card_offsets@.update(a as int, old(self).card_offsets@[b as int]).update(
                    b as int,
                    old(self).card_offsets@[a as int],
                )
            } else {
                old(self).card_offsets@
            }),
    {
        if a < self.card_offsets.len() && b < self.card_offsets.len() {
            let first = self.card_offsets[a];
            let second = self.card_offsets[b];
            self.card_offsets.set(a, second);
            self.card_offsets.set(b, first);
        }
    }

    /// Keeps one card offset per column (new columns start at the top) and the first
    /// column within range.
    pub fn ensure_columns(&mut self, count: usize)
        ensures
            final(self).card_offsets@.len() == count,
            forall|i: int|
                0 <= i < count ==> #[trigger] final(self).card_offsets@[i] == (if i
                    < old(self).card_offsets@.len() {
                    old(self).card_offsets@[i]
                } else {
                    0
                }),
            final(self).first_column == (if old(self).first_column < (if count >= 1 {
                count - 1
            } else {
                0
            }) {
                old(self).first_column as int
            } else if count >= 1 {
                count - 1
            } else {
                0
            }),
    {
        let len = self.card_offsets.len();
        let mut next: Vec<usize> = Vec::new();
        let mut i: usize = 0;
        while i < count
            invariant
                len == old(self).card_offsets@.len(),
                self.card_offsets@ == old(self).card_offsets@,
                i <= count,
                next@.len() == i,
                forall|k: int|
                    0 <= k < i ==> #[trigger] next@[k] == (if k < len {
                        old(self).card_offsets@[k]
                    } else {
                        0
                    }),
            decreases count - i,
        {
            if i < len {
                next.push(self.card_offsets[i]);
            } else {
                next.push(0);
            }
            i = i + 1;
        }
        self.card_offsets = next;
        let last: usize = if count >= 1 { count - 1 } else { 0 };
        if self.first_column > last {
            self.first_column = last;
        }
    }

    /// Scrolls horizontally so that the focused column is among the `visible` ones, moving
    /// as little as possible, and never past the last full screen of columns.
    pub fn reveal_column(&mut self, focused: usize, visible: usize, total: usize)
        ensures
            final(self).card_offsets@ == old(self).card_offsets@,
            final(self).first_column == revealed_column(
                old(self).first_column,
                focused,
                visible,
                total,
            ),
    {
        if visible == 0 || total == 0 {
            self.first_column = 0;
        } else if focused < self.first_column {
            self.first_column = focused;
        } else if focused - self.first_column >= visible {
            self.first_column = focused - visible + 1;
        }
        let shown: usize = if visible < total { visible } else { total };
        let limit: usize = total - shown;
        if self.first_column > limit {
            self.first_column = limit;
        }
    }

    /// Scrolls a column vertically so that the focused card is among the `capacity` shown.
    pub fn reveal_card(&mut self, column: usize, focused: usize, capacity: usize)
        ensures
            final(self).first_column == old(self).first_column,
            final(self).card_offsets@.len() == old(self).card_offsets@.len(),
            column < old(self).card_offsets@.len() ==> final(self).card_offsets@ == old(
                self,
            ).card_offsets@.update(
                column as int,
                revealed_offset(old(self).card_offsets@[column as int], focused, capacity),
            ),
            column >= old(self).card_offsets@.len() ==> final(self).card_offsets@ == old(
                self,
            ).card_offsets@,
    {
        if column >= self.card_offsets.len() {
            return;
        }
        let offset = self.card_offsets[column];
        let next: usize = if capacity == 0 || focused < offset {
            focused
        } else if focused - offset >= capacity {
            focused - capacity + 1
        } else {
            offset
        };
        self.card_offsets.set(column, next);
    }
}

/// The first visible column after revealing `focused`.
pub open spec fn revealed_column(first: usize, focused: usize, visible: usize, total: usize) -> usize {
    let moved = if visible == 0 || total == 0 {
        0
    } else if focused < first {
        focused as int
    } else if focused >= first + visible {
        focused + 1 - visible
    } else {
        first as int
    };
    let shown = if visible < total { visible } else { total };
    let limit = total - shown;
    (if moved > limit { limit } else { moved }) as usize
}

/// The first visible card of a column after revealing `focused`.
pub open spec fn revealed_offset(offset: usize, focused: usize, capacity: usize) -> usize {
    if capacity == 0 || focused < offset {
        focused
    } else if focused >= offset + capacity {
        (focused + 1 - capacity) as usize
    } else {
        offset
    }
}

/// `value` shortened to `width` characters, with `…` marking a cut.
pub open spec fn truncated(value: Seq<char>, width: nat) -> Seq<char> {
    if value.len() <= width {
        value
    } else if width <= 1 {
        seq!['…'].take(width as int)
    } else {
        value.take(width - 1).push('…')
    }
}

pub fn truncate(value: &str, width: usize) -> (r: String)
    ensures
        r@ == truncated(value@, width as nat),
        r@.len() <= width || r@ == value@,
{
    let count = value.unicode_len();
    if count <= width {
        return owned(value);
    }
    if width == 0 {
        let r = String::new();
        assert(r@ =~= seq!['…'].take(0));
        return r;
    }
    if width == 1 {
        let mut r = String::new();
        push_char(&mut r, '…');
        assert(r@ =~= seq!['…'].take(1));
        return r;
    }
    let head = value.substring_char(0, width - 1);
    let mut r = owned(head);
    push_char(&mut r, '…');
    assert(r@ =~= value@.take(width - 1).push('…'));
    r
}

/// The parts of a path, as `Path::components` yields them: the root or a leading `.`, then
/// the named components.
pub open spec fn display_components(p: Seq<char>) -> Seq<Seq<char>> {
    let key = path_key(p);
    (if key.0 {
        seq![seq!['/']]
    } else if key.1 {
        seq![seq!['.']]
    } else {
        Seq::empty()
    }) + key.2
}

/// The parts joined with `/`.
pub open spec fn joined(parts: Seq<Seq<char>>) -> Seq<char>
    decreases parts.len(),
{
    if parts.len() == 0 {
        Seq::empty()
    } else if parts.len() == 1 {
        parts[0]
    } else {
        joined(parts.drop_last()) + seq!['/'] + parts.last()
    }
}

/// `…/` and the last `keep` parts.
pub open spec fn tail_candidate(parts: Seq<Seq<char>>, keep: int) -> Seq<char> {
    seq!['…', '/'] + joined(parts.subrange(parts.len() - keep, parts.len() as int))
}

/// The longest tail of the path, after `…/`, that fits the width; or the path itself when
/// it fits.
pub open spec fn abbreviated(p: Seq<char>, width: nat) -> Seq<char> {
    let parts = display_components(p);
    if p.len() <= width {
        p
    } else if exists|keep: int| 1 <= keep <= parts.len() && tail_candidate(parts, keep).len() > width {
        let keep = choose|keep: int|
            1 <= keep <= parts.len() && tail_candidate(parts, keep).len() > width && forall|j: int|
                1 <= j < keep ==> (#[trigger] tail_candidate(parts, j)).len() <= width;
        if keep == 1 {
            truncated(tail_candidate(parts, 1), width)
        } else {
            tail_candidate(parts, keep - 1)
        }
    } else {
        truncated(p, width)
    }
}

fn joined_string(parts: &Vec<Vec<char>>, from: usize) -> (r: String)
    requires
        from <= parts@.len(),
    ensures
        r@ == joined(vec_views(parts@).subrange(from as int, parts@.len() as int)),
{
    let n = parts.len();
    let mut r = String::new();
    let mut k: usize = from;
    assert(vec_views(parts@).subrange(from as int, from as int) =~= Seq::<Seq<char>>::empty());
    while k < n
        invariant
            from <= k <= n,
            n == parts@.len(),
            r@ == joined(vec_views(parts@).subrange(from as int, k as int)),
        decreases n - k,
    {
        let ghost before = r@;
        if k > from {
            push_char(&mut r, '/');
        }
        let part = &parts[k];
        let mut q: usize = 0;
        let ghost base = r@;
        while q < part.len()
            invariant
                q <= part@.len(),
                r@ == base + part@.subrange(0, q as int),
            decreases part@.len() - q,
        {
            push_char(&mut r, part[q]);
            q = q + 1;
            assert(r@ =~= base + part@.subrange(0, q as int));
        }
        proof {
            let sub = vec_views(parts@).subrange(from as int, k + 1);
            assert(part@.subrange(0, part@.len() as int) =~= part@);
            assert(sub.last() == part@);
            assert(sub.drop_last() =~= vec_views(parts@).subrange(from as int, k as int));
            assert(r@ =~= joined(sub));
        }
        k = k + 1;
    }
    r
}

fn copy_chars(v: &Vec<char>) -> (r: Vec<char>)
    ensures
        r@ == v@,
{
    let mut r = Vec::new();
    let mut k: usize = 0;
    while k < v.len()
        invariant
            k <= v@.len(),
            r@ == v@.subrange(0, k as int),
        decreases v@.len() - k,
    {
        r.push(v[k]);
        k = k + 1;
        assert(r@ =~= v@.subrange(0, k as int));
    }
    assert(r@ =~= v@);
    r
}

fn display_parts(path: &str) -> (parts: Vec<Vec<char>>)
    ensures
        vec_views(parts@) == display_components(path@),
{
    let (is_abs, leading_dot, named) = components_of(path);
    let mut parts: Vec<Vec<char>> = Vec::new();
    if is_abs {
        let mut root = Vec::new();
        root.push('/');
        parts.push(root);
    } else if leading_dot {
        let mut dot = Vec::new();
        dot.push('.');
        parts.push(dot);
    }
    let mut k: usize = 0;
    let ghost head = vec_views(parts@);
    while k < named.len()
        invariant
            k <= named@.len(),
            vec_views(parts@) == head + vec_views(named@).subrange(0, k as int),
        decreases named@.len() - k,
    {
        let ghost prev = parts@;
        parts.push(copy_chars(&named[k]));
        assert(vec_views(parts@) =~= vec_views(prev).push(named@[k as int]@));
        k = k + 1;
        assert(vec_views(parts@) =~= head + vec_views(named@).subrange(0, k as int));
    }
    proof {
        assert(vec_views(named@).subrange(0, named@.len() as int) =~= vec_views(named@));
        assert(head =~= (if path_key(path@).0 {
            seq![seq!['/']]
        } else if path_key(path@).1 {
            seq![seq!['.']]
        } else {
            Seq::empty()
        }));
    }
    assert(vec_views(parts@) =~= display_components(path@));
    parts
}

/// A path shortened to `width` characters: kept whole when it fits, otherwise `…/` and as
/// many trailing components as fit.
pub fn abbreviated_path(path: &str, width: usize) -> (r: String)
    ensures
        r@ == abbreviated(path@, width as nat),
{
    if path.unicode_len() <= width {
        return owned(path);
    }
    let parts = display_parts(path);
    let ghost dp = display_components(path@);
    let n = parts.len();
    let mut done: usize = 0;
    while done < n
        invariant
            n == parts@.len(),
            vec_views(parts@) == dp,
            done <= n,
            forall|j: int| 1 <= j <= done ==> (#[trigger] tail_candidate(dp, j)).len() <= width,
        decreases n - done,
    {
        let keep = done + 1;
        let mut candidate = owned("…/");
        let tail = joined_string(&parts, n - keep);
        push_str(&mut candidate, tail.as_str());
        proof {
            reveal_strlit("…/");
            assert(candidate@ =~= tail_candidate(dp, keep as int));
        }
        if candidate.as_str().unicode_len() > width {
            proof {
                let k = keep as int;
                assert(1 <= k <= dp.len() && tail_candidate(dp, k).len() > width);
                let c = choose|c: int|
                    1 <= c <= dp.len() && tail_candidate(dp, c).len() > width && forall|j: int|
                        1 <= j < c ==> (#[trigger] tail_candidate(dp, j)).len() <= width;
                if c < k {
                    assert(tail_candidate(dp, c).len() <= width);
                } else if c > k {
                    assert(tail_candidate(dp, k).len() <= width);
                }
            }
            if keep == 1 {
                return truncate(candidate.as_str(), width);
            }
            let mut shorter = owned("…/");
            let tail = joined_string(&parts, n - keep + 1);
            push_str(&mut shorter, tail.as_str());
            proof {
                reveal_strlit("…/");
                assert(shorter@ =~= tail_candidate(dp, keep - 1));
            }
            return shorter;
        }
        done = done + 1;
    }
    truncate(path, width)
}


/// Revealing a column puts the focused column among the visible ones, within the board.
pub proof fn lemma_revealed_column_shows_focus(first: usize, focused: usize, visible: usize, total: usize)
    requires
        focused < total,
        visible > 0,
    ensures
        revealed_column(first, focused, visible, total) <= focused,
        focused < revealed_column(first, focused, visible, total) + visible,
        revealed_column(first, focused, visible, total) + (if visible < total {
            visible
        } else {
            total
        }) <= total,
{
}

/// Revealing a card puts the focused card among the `capacity` shown.
pub proof fn lemma_revealed_offset_shows_focus(offset: usize, focused: usize, capacity: usize)
    requires
        capacity > 0,
    ensures
        revealed_offset(offset, focused, capacity) <= focused,
        focused < revealed_offset(offset, focused, capacity) + capacity,
{
}


/// How the board's columns fit: at least one and at most four are shown, never more than
/// the board has; the shown columns, each at least `MIN_COLUMN_WIDTH` wide when the board is
/// that wide, fit side by side with their gaps; one more column would not fit at the least
/// width (when the board has one more to show); and every column gets the same width, at
/// most `MAX_COLUMN_WIDTH`, with all of them and their gaps within the board.
pub proof fn lemma_fitted_columns_fit(board_width: u16, column_count: usize)
    ensures
        ({
            let (visible, width) = fitted_columns(board_width, column_count);
            &&& 1 <= visible <= MAX_VISIBLE_COLUMNS
            &&& column_count >= 1 ==> visible <= column_count
            &&& visible >= 2 ==> visible * MIN_COLUMN_WIDTH + (visible - 1) * COLUMN_GAP
                <= board_width
            &&& (visible < MAX_VISIBLE_COLUMNS && visible < column_count) ==> (visible + 1)
                * MIN_COLUMN_WIDTH + visible * COLUMN_GAP > board_width
            &&& width <= MAX_COLUMN_WIDTH
            &&& board_width >= MIN_COLUMN_WIDTH ==> width >= MIN_COLUMN_WIDTH
            &&& visible * width + (visible - 1) * COLUMN_GAP <= board_width
        }),
{
    let (visible, width) = fitted_columns(board_width, column_count);
    let w = board_width as int;
    let possible_raw = (w + 1) / 29;
    assert(possible_raw * 29 <= w + 1 && w + 1 < possible_raw * 29 + 29) by (nonlinear_arith)
        requires
            possible_raw == (w + 1) / 29,
            w >= 0,
    ;
    let v = visible as int;
    let raw = (if w >= v - 1 { w - (v - 1) } else { 0 }) / v;
    if v == 1 {
        assert(raw == if w >= 0 { w } else { 0 });
    } else if v == 2 {
        assert(raw * 2 <= w - 1 && w - 1 < raw * 2 + 2);
    } else if v == 3 {
        assert(raw * 3 <= w - 2 && w - 2 < raw * 3 + 3);
    } else {
        assert(v == 4);
        assert(raw * 4 <= w - 3 && w - 3 < raw * 4 + 4);
    }
}

} // verus!
