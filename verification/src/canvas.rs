//! A fixed-size character buffer with bounds-checked drawing primitives and
//! serialization to a printable block.
//!
//! The abstract model is [`CanvasView`]: a width, a height, and a row-major
//! sequence of cells. Every drawing primitive of [`Canvas`] is specified as
//! the corresponding pure operation on the view; drawing outside the bounds
//! is silently clipped, never an error.

use vstd::prelude::*;

verus! {

/// The abstract state of a [`Canvas`]: `chars` holds the cells in row-major
/// order, so the cell at column `x` of row `y` sits at index `y * w + x`.
pub ghost struct CanvasView {
    pub w: nat,
    pub h: nat,
    pub chars: Seq<char>,
}

impl CanvasView {
    /// The cell count matches the dimensions and offset arithmetic stays
    /// within `u32`.
    pub open spec fn wf(self) -> bool {
        &&& self.chars.len() == self.w * self.h
        &&& self.w * self.h <= u32::MAX
    }

    /// The character at column `x` of row `y`.
    pub open spec fn cell(self, x: int, y: int) -> char {
        self.chars[y * self.w + x]
    }

    /// Writing one character: an in-bounds write updates one cell, an
    /// out-of-bounds write is dropped.
    pub open spec fn draw_char(self, x: int, y: int, c: char) -> CanvasView {
        if 0 <= x < self.w && 0 <= y < self.h {
            CanvasView { chars: self.chars.update(y * self.w + x, c), ..self }
        } else {
            self
        }
    }

    /// Writing a string left-to-right from `(x, y)`: each character lands one
    /// column further right; writes past the right edge are dropped (the
    /// string never wraps).
    pub open spec fn draw_string(self, x: int, y: int, s: Seq<char>) -> CanvasView
        decreases s.len(),
    {
        if s.len() == 0 {
            self
        } else {
            self.draw_char(x, y, s[0]).draw_string(x + 1, y, s.drop_first())
        }
    }

    /// One horizontal edge character per column of `i..xend`, on the two rows
    /// `ytop` and `ybot` (a box's top and bottom edges).
    pub open spec fn draw_edge_cols(self, i: int, xend: int, ytop: int, ybot: int) -> CanvasView
        decreases xend - i,
    {
        if i >= xend {
            self
        } else {
            self.draw_char(i, ytop, '─').draw_char(i, ybot, '─').draw_edge_cols(
                i + 1,
                xend,
                ytop,
                ybot,
            )
        }
    }

    /// One vertical edge character per row of `i..yend`, on the two columns
    /// `xleft` and `xright` (a box's side edges).
    pub open spec fn draw_edge_rows(self, i: int, yend: int, xleft: int, xright: int) -> CanvasView
        decreases yend - i,
    {
        if i >= yend {
            self
        } else {
            self.draw_char(xleft, i, '│').draw_char(xright, i, '│').draw_edge_rows(
                i + 1,
                yend,
                xleft,
                xright,
            )
        }
    }

    /// A horizontal run of `─` along row `y`, columns `i..xend`.
    pub open spec fn draw_hrun(self, i: int, xend: int, y: int) -> CanvasView
        decreases xend - i,
    {
        if i >= xend {
            self
        } else {
            self.draw_char(i, y, '─').draw_hrun(i + 1, xend, y)
        }
    }

    /// A vertical run of `│` along column `x`, rows `i..yend`.
    pub open spec fn draw_vrun(self, i: int, yend: int, x: int) -> CanvasView
        decreases yend - i,
    {
        if i >= yend {
            self
        } else {
            self.draw_char(x, i, '│').draw_vrun(i + 1, yend, x)
        }
    }

    /// A rectangle outline with corners at `(x, y)` and `(x + w, y + h - 1)`,
    /// drawn corner characters first, then the top and bottom edges, then the
    /// sides. A box needs `h >= 2` to be well formed; a flatter request is
    /// rejected by drawing nothing.
    pub open spec fn draw_box(self, x: int, y: int, w: int, h: int) -> CanvasView {
        if h < 2 {
            self
        } else {
            self.draw_char(x, y, '┌').draw_char(x + w, y, '┐').draw_char(
                x,
                y + h - 1,
                '└',
            ).draw_char(x + w, y + h - 1, '┘').draw_edge_cols(x + 1, x + w, y, y + h - 1)
                .draw_edge_rows(y + 1, y + h - 1, x, x + w)
        }
    }

    /// An L-shaped connector: a horizontal run from just after `x0` to `x1`
    /// along row `y0`, then, if the rows differ, a corner at `(x1, y0)`
    /// oriented by the sign of `y1 - y0` and a vertical run toward row `y1`.
    pub open spec fn draw_connector(self, x0: int, y0: int, x1: int, y1: int) -> CanvasView {
        let c = self.draw_hrun(x0 + 1, x1, y0);
        if y0 == y1 {
            c
        } else if y0 > y1 {
            c.draw_char(x1, y0, '┘').draw_vrun(y1 + 1, y0, x1)
        } else {
            c.draw_char(x1, y0, '┐').draw_vrun(y0 + 1, y1, x1)
        }
    }

    /// The cells of row `y`, in order.
    pub open spec fn row(self, y: int) -> Seq<char> {
        self.chars.subrange(y * self.w, y * self.w + self.w)
    }

    /// Rows `y..h` serialized top to bottom, each terminated by a line break.
    pub open spec fn text_from(self, y: int) -> Seq<char>
        decreases self.h - y,
    {
        if y < 0 || y >= self.h {
            Seq::empty()
        } else {
            self.row(y) + seq!['\n'] + self.text_from(y + 1)
        }
    }

    /// The whole canvas as printable text: rows top to bottom, each ended by
    /// a line break.
    pub open spec fn text(self) -> Seq<char> {
        self.text_from(0)
    }
}

/// Drawing preserves the dimensions and well-formedness of the view.
pub proof fn lemma_draw_char_wf(c: CanvasView, x: int, y: int, ch: char)
    ensures
        c.draw_char(x, y, ch).w == c.w,
        c.draw_char(x, y, ch).h == c.h,
        c.wf() ==> c.draw_char(x, y, ch).wf(),
        c.wf() ==> c.draw_char(x, y, ch).chars.len() == c.chars.len(),
{
    if c.wf() && 0 <= x < c.w && 0 <= y < c.h {
        lemma_rowmajor_in_range(x, y, c.w as int, c.h as int);
    }
}

/// Writing a string preserves the dimensions and well-formedness of the view.
pub proof fn lemma_draw_string_wf(c: CanvasView, x: int, y: int, s: Seq<char>)
    ensures
        c.draw_string(x, y, s).w == c.w,
        c.draw_string(x, y, s).h == c.h,
        c.wf() ==> c.draw_string(x, y, s).wf(),
    decreases s.len(),
{
    if s.len() > 0 {
        lemma_draw_char_wf(c, x, y, s[0]);
        lemma_draw_string_wf(c.draw_char(x, y, s[0]), x + 1, y, s.drop_first());
    }
}

/// Writing a string one character longer first writes the prefix, then the
/// last character one column past it.
pub proof fn lemma_draw_string_snoc(c: CanvasView, x: int, y: int, s: Seq<char>, ch: char)
    ensures
        c.draw_string(x, y, s.push(ch)) == c.draw_string(x, y, s).draw_char(x + s.len(), y, ch),
    decreases s.len(),
{
    let s2 = s.push(ch);
    assert(s2.len() == s.len() + 1);
    if s.len() == 0 {
        assert(s2[0] == ch);
        assert(s2.drop_first() =~= Seq::<char>::empty());
        assert(c.draw_string(x, y, s2) == c.draw_char(x, y, ch).draw_string(
            x + 1,
            y,
            Seq::<char>::empty(),
        ));
        assert(c.draw_char(x, y, ch).draw_string(x + 1, y, Seq::<char>::empty()) == c.draw_char(
            x,
            y,
            ch,
        ));
        assert(c.draw_string(x, y, s) == c);
    } else {
        assert(s2[0] == s[0]);
        assert(s2.drop_first() =~= s.drop_first().push(ch));
        assert(c.draw_string(x, y, s2) == c.draw_char(x, y, s[0]).draw_string(
            x + 1,
            y,
            s.drop_first().push(ch),
        ));
        lemma_draw_string_snoc(c.draw_char(x, y, s[0]), x + 1, y, s.drop_first(), ch);
        assert(c.draw_string(x, y, s) == c.draw_char(x, y, s[0]).draw_string(
            x + 1,
            y,
            s.drop_first(),
        ));
    }
}

/// A string whose start column already lies past the right edge, or whose row
/// lies outside the canvas, is dropped entirely.
pub proof fn lemma_draw_string_clipped(c: CanvasView, x: int, y: int, s: Seq<char>)
    requires
        x >= c.w || y < 0 || y >= c.h,
    ensures
        c.draw_string(x, y, s) == c,
    decreases s.len(),
{
    if s.len() > 0 {
        lemma_draw_string_clipped(c, x + 1, y, s.drop_first());
    }
}

/// Writing a string equals writing its first `m` characters, then the rest
/// starting `m` columns further right.
pub proof fn lemma_draw_string_split(c: CanvasView, x: int, y: int, s: Seq<char>, m: int)
    requires
        0 <= m <= s.len(),
    ensures
        c.draw_string(x, y, s) == c.draw_string(x, y, s.take(m)).draw_string(x + m, y, s.skip(m)),
    decreases m,
{
    if m == 0 {
        assert(s.take(0) =~= Seq::<char>::empty());
        assert(s.skip(0) =~= s);
    } else {
        assert(s.take(m)[0] == s[0]);
        assert(s.take(m).drop_first() =~= s.drop_first().take(m - 1));
        assert(s.skip(m) =~= s.drop_first().skip(m - 1));
        lemma_draw_string_split(c.draw_char(x, y, s[0]), x + 1, y, s.drop_first(), m - 1);
    }
}

/// Extending a top-and-bottom edge pass by one column appends two writes.
pub proof fn lemma_edge_cols_snoc(c: CanvasView, a: int, i: int, ytop: int, ybot: int)
    requires
        a <= i,
    ensures
        c.draw_edge_cols(a, i + 1, ytop, ybot) == c.draw_edge_cols(a, i, ytop, ybot).draw_char(
            i,
            ytop,
            '─',
        ).draw_char(i, ybot, '─'),
    decreases i - a,
{
    let c2 = c.draw_char(a, ytop, '─').draw_char(a, ybot, '─');
    if a == i {
        assert(c.draw_edge_cols(a, i, ytop, ybot) == c);
        assert(c.draw_edge_cols(a, i + 1, ytop, ybot) == c2.draw_edge_cols(a + 1, i + 1, ytop, ybot));
        assert(c2.draw_edge_cols(a + 1, i + 1, ytop, ybot) == c2);
    } else {
        assert(c.draw_edge_cols(a, i + 1, ytop, ybot) == c2.draw_edge_cols(a + 1, i + 1, ytop, ybot));
        assert(c.draw_edge_cols(a, i, ytop, ybot) == c2.draw_edge_cols(a + 1, i, ytop, ybot));
        lemma_edge_cols_snoc(c2, a + 1, i, ytop, ybot);
    }
}

/// An edge pass preserves the dimensions and well-formedness of the view.
pub proof fn lemma_edge_cols_wf(c: CanvasView, a: int, b: int, ytop: int, ybot: int)
    ensures
        c.draw_edge_cols(a, b, ytop, ybot).w == c.w,
        c.draw_edge_cols(a, b, ytop, ybot).h == c.h,
        c.wf() ==> c.draw_edge_cols(a, b, ytop, ybot).wf(),
    decreases b - a,
{
    if a < b {
        lemma_draw_char_wf(c, a, ytop, '─');
        lemma_draw_char_wf(c.draw_char(a, ytop, '─'), a, ybot, '─');
        lemma_edge_cols_wf(c.draw_char(a, ytop, '─').draw_char(a, ybot, '─'), a + 1, b, ytop, ybot);
    }
}

/// Extending a side-edge pass by one row appends two writes.
pub proof fn lemma_edge_rows_snoc(c: CanvasView, a: int, i: int, xleft: int, xright: int)
    requires
        a <= i,
    ensures
        c.draw_edge_rows(a, i + 1, xleft, xright) == c.draw_edge_rows(a, i, xleft, xright)
            .draw_char(xleft, i, '│').draw_char(xright, i, '│'),
    decreases i - a,
{
    let c2 = c.draw_char(xleft, a, '│').draw_char(xright, a, '│');
    if a == i {
        assert(c.draw_edge_rows(a, i, xleft, xright) == c);
        assert(c.draw_edge_rows(a, i + 1, xleft, xright) == c2.draw_edge_rows(a + 1, i + 1, xleft, xright));
        assert(c2.draw_edge_rows(a + 1, i + 1, xleft, xright) == c2);
    } else {
        assert(c.draw_edge_rows(a, i + 1, xleft, xright) == c2.draw_edge_rows(a + 1, i + 1, xleft, xright));
        assert(c.draw_edge_rows(a, i, xleft, xright) == c2.draw_edge_rows(a + 1, i, xleft, xright));
        lemma_edge_rows_snoc(c2, a + 1, i, xleft, xright);
    }
}

/// A side-edge pass preserves the dimensions and well-formedness of the view.
pub proof fn lemma_edge_rows_wf(c: CanvasView, a: int, b: int, xleft: int, xright: int)
    ensures
        c.draw_edge_rows(a, b, xleft, xright).w == c.w,
        c.draw_edge_rows(a, b, xleft, xright).h == c.h,
        c.wf() ==> c.draw_edge_rows(a, b, xleft, xright).wf(),
    decreases b - a,
{
    if a < b {
        lemma_draw_char_wf(c, xleft, a, '│');
        lemma_draw_char_wf(c.draw_char(xleft, a, '│'), xright, a, '│');
        lemma_edge_rows_wf(
            c.draw_char(xleft, a, '│').draw_char(xright, a, '│'),
            a + 1,
            b,
            xleft,
            xright,
        );
    }
}

/// Extending a horizontal run by one column appends one write.
pub proof fn lemma_hrun_snoc(c: CanvasView, a: int, i: int, y: int)
    requires
        a <= i,
    ensures
        c.draw_hrun(a, i + 1, y) == c.draw_hrun(a, i, y).draw_char(i, y, '─'),
    decreases i - a,
{
    let c2 = c.draw_char(a, y, '─');
    if a == i {
        assert(c.draw_hrun(a, i, y) == c);
        assert(c.draw_hrun(a, i + 1, y) == c2.draw_hrun(a + 1, i + 1, y));
        assert(c2.draw_hrun(a + 1, i + 1, y) == c2);
    } else {
        assert(c.draw_hrun(a, i + 1, y) == c2.draw_hrun(a + 1, i + 1, y));
        assert(c.draw_hrun(a, i, y) == c2.draw_hrun(a + 1, i, y));
        lemma_hrun_snoc(c2, a + 1, i, y);
    }
}

/// A horizontal run preserves the dimensions and well-formedness of the view.
pub proof fn lemma_hrun_wf(c: CanvasView, a: int, b: int, y: int)
    ensures
        c.draw_hrun(a, b, y).w == c.w,
        c.draw_hrun(a, b, y).h == c.h,
        c.wf() ==> c.draw_hrun(a, b, y).wf(),
    decreases b - a,
{
    if a < b {
        lemma_draw_char_wf(c, a, y, '─');
        lemma_hrun_wf(c.draw_char(a, y, '─'), a + 1, b, y);
    }
}

/// Extending a vertical run by one row appends one write.
pub proof fn lemma_vrun_snoc(c: CanvasView, a: int, i: int, x: int)
    requires
        a <= i,
    ensures
        c.draw_vrun(a, i + 1, x) == c.draw_vrun(a, i, x).draw_char(x, i, '│'),
    decreases i - a,
{
    let c2 = c.draw_char(x, a, '│');
    if a == i {
        assert(c.draw_vrun(a, i, x) == c);
        assert(c.draw_vrun(a, i + 1, x) == c2.draw_vrun(a + 1, i + 1, x));
        assert(c2.draw_vrun(a + 1, i + 1, x) == c2);
    } else {
        assert(c.draw_vrun(a, i + 1, x) == c2.draw_vrun(a + 1, i + 1, x));
        assert(c.draw_vrun(a, i, x) == c2.draw_vrun(a + 1, i, x));
        lemma_vrun_snoc(c2, a + 1, i, x);
    }
}

/// A vertical run preserves the dimensions and well-formedness of the view.
pub proof fn lemma_vrun_wf(c: CanvasView, a: int, b: int, x: int)
    ensures
        c.draw_vrun(a, b, x).w == c.w,
        c.draw_vrun(a, b, x).h == c.h,
        c.wf() ==> c.draw_vrun(a, b, x).wf(),
    decreases b - a,
{
    if a < b {
        lemma_draw_char_wf(c, x, a, '│');
        lemma_vrun_wf(c.draw_char(x, a, '│'), a + 1, b, x);
    }
}

/// The row-major slice of one row lies within the buffer.
pub proof fn lemma_row_bounds(y: int, w: int, h: int)
    requires
        0 <= y < h,
        0 <= w,
    ensures
        0 <= y * w,
        y * w + w <= h * w,
        h * w == w * h,
{
    assert(0 <= y * w && y * w + w <= h * w && h * w == w * h) by (nonlinear_arith)
        requires
            0 <= y < h,
            0 <= w,
    ;
}

/// Row-major offsets of in-bounds coordinates stay within the buffer.
pub proof fn lemma_rowmajor_in_range(x: int, y: int, w: int, h: int)
    requires
        0 <= x < w,
        0 <= y < h,
    ensures
        0 <= y * w + x < w * h,
{
    assert(0 <= y * w + x < w * h) by (nonlinear_arith)
        requires
            0 <= x < w,
            0 <= y < h,
    ;
}

/// A mutable character grid of `w` columns by `h` rows, origin at the top
/// left, stored row-major. Its abstraction is [`CanvasView`].
pub struct Canvas {
    w: u32,
    h: u32,
    chars: Vec<char>,
}

impl View for Canvas {
    type V = CanvasView;

    closed spec fn view(&self) -> CanvasView {
        CanvasView { w: self.w as nat, h: self.h as nat, chars: self.chars@ }
    }
}

impl Canvas {
    /// Allocates a `w` by `h` canvas with every cell set to a space.
    pub fn new(w: u32, h: u32) -> (r: Canvas)
        requires
            w * h <= u32::MAX,
        ensures
            r@.wf(),
            r@.w == w,
            r@.h == h,
            r@.chars == Seq::new((w * h) as nat, |i: int| ' '),
    {
        proof {
            vstd::arithmetic::mul::lemma_mul_nonnegative(w as int, h as int);
        }
        let n = w * h;
        let mut chars: Vec<char> = Vec::new();
        let mut i: u32 = 0;
        while i < n
            invariant
                i <= n,
                chars@ =~= Seq::new(i as nat, |k: int| ' '),
            decreases n - i,
        {
            chars.push(' ');
            i = i + 1;
        }
        assert(chars@ =~= Seq::new((w * h) as nat, |i: int| ' '));
        Canvas { w, h, chars }
    }

    /// Writes `c` at `(x, y)`; out-of-bounds writes are silently clipped.
    pub fn draw_char(&mut self, x: u32, y: u32, c: char)
        requires
            old(self)@.wf(),
        ensures
            final(self)@ == old(self)@.draw_char(x as int, y as int, c),
            final(self)@.wf(),
            final(self)@.w == old(self)@.w,
            final(self)@.h == old(self)@.h,
    {
        proof {
            lemma_draw_char_wf(old(self)@, x as int, y as int, c);
        }
        if x >= self.w || y >= self.h {
            return ;
        }
        proof {
            lemma_rowmajor_in_range(x as int, y as int, self.w as int, self.h as int);
        }
        let offset = (y * self.w + x) as usize;
        self.chars[offset] = c;
    }

    /// Writes `s` left-to-right starting at `(x, y)`; stops silently at the
    /// right edge and never wraps to the next row.
    pub fn draw_string(&mut self, x: u32, y: u32, s: &str)
        requires
            old(self)@.wf(),
        ensures
            final(self)@ == old(self)@.draw_string(x as int, y as int, s@),
            final(self)@.wf(),
            final(self)@.w == old(self)@.w,
            final(self)@.h == old(self)@.h,
    {
        proof {
            lemma_draw_string_wf(old(self)@, x as int, y as int, s@);
        }
        if x >= self.w || y >= self.h {
            proof {
                lemma_draw_string_clipped(old(self)@, x as int, y as int, s@);
            }
            return ;
        }
        let n = s.unicode_len();
        let mut k: usize = 0;
        let mut i: u32 = x;
        while k < n
            invariant
                old(self)@.wf(),
                self@.wf(),
                self@.w == old(self)@.w,
                self@.h == old(self)@.h,
                k <= n,
                n == s@.len(),
                i == x + k,
                i < self@.w,
                self@ == old(self)@.draw_string(x as int, y as int, s@.take(k as int)),
            decreases n - k,
        {
            let ghost pre = self@;
            self.draw_char(i, y, s.get_char(k));
            proof {
                let ghost kc: char = s@[k as int];
                lemma_draw_string_snoc(old(self)@, x as int, y as int, s@.take(k as int), kc);
                assert(s@.take(k as int).push(s@[k as int]) =~= s@.take(k as int + 1));
            }
            k = k + 1;
            if i + 1 >= self.w {
                proof {
                    lemma_draw_string_split(old(self)@, x as int, y as int, s@, k as int);
                    lemma_draw_string_wf(old(self)@, x as int, y as int, s@.take(k as int));
                    lemma_draw_string_clipped(self@, x as int + k, y as int, s@.skip(k as int));
                    assert(s@.take(n as int) =~= s@);
                }
                return ;
            }
            i = i + 1;
        }
        proof {
            assert(s@.take(n as int) =~= s@);
        }
    }

    /// Draws a rectangle outline with box-drawing characters at
    /// `(x, y)`–`(x + w, y + h - 1)`. A box needs `h >= 2` to be well formed;
    /// a flatter request draws nothing.
    pub fn draw_box(&mut self, x: u32, y: u32, w: u32, h: u32)
        requires
            old(self)@.wf(),
            x + w <= u32::MAX,
            y + h <= u32::MAX,
        ensures
            final(self)@ == old(self)@.draw_box(x as int, y as int, w as int, h as int),
            final(self)@.wf(),
            final(self)@.w == old(self)@.w,
            final(self)@.h == old(self)@.h,
    {
        if h < 2 {
            return ;
        }
        self.draw_char(x, y, '┌');
        self.draw_char(x + w, y, '┐');
        self.draw_char(x, y + h - 1, '└');
        self.draw_char(x + w, y + h - 1, '┘');
        let ghost corners = self@;
        let mut k: u32 = 0;
        while k + 1 < w
            invariant
                corners.wf(),
                self@.wf(),
                x + w <= u32::MAX,
                y + h <= u32::MAX,
                h >= 2,
                k + 1 <= w || k == 0,
                self@ == corners.draw_edge_cols(
                    x as int + 1,
                    x as int + 1 + k,
                    y as int,
                    y as int + h - 1,
                ),
            decreases w - k,
        {
            proof {
                lemma_edge_cols_wf(
                    corners,
                    x as int + 1,
                    x as int + 1 + k,
                    y as int,
                    y as int + h - 1,
                );
                lemma_edge_cols_snoc(
                    corners,
                    x as int + 1,
                    x as int + 1 + k,
                    y as int,
                    y as int + h - 1,
                );
            }
            self.draw_char(x + k + 1, y, '─');
            self.draw_char(x + k + 1, y + h - 1, '─');
            k = k + 1;
        }
        let ghost edged = self@;
        proof {
            lemma_edge_cols_wf(corners, x as int + 1, x as int + w, y as int, y as int + h - 1);
            assert(self@ == corners.draw_edge_cols(
                x as int + 1,
                x as int + w,
                y as int,
                y as int + h - 1,
            ));
        }
        let mut j: u32 = y + 1;
        while j < y + h - 1
            invariant
                edged.wf(),
                self@.wf(),
                x + w <= u32::MAX,
                y + h <= u32::MAX,
                h >= 2,
                y + 1 <= j,
                j <= y + h - 1 || j == y + 1,
                self@ == edged.draw_edge_rows(y as int + 1, j as int, x as int, x as int + w),
            decreases y + h - 1 - j,
        {
            proof {
                lemma_edge_rows_wf(edged, y as int + 1, j as int, x as int, x as int + w);
                lemma_edge_rows_snoc(edged, y as int + 1, j as int, x as int, x as int + w);
            }
            self.draw_char(x, j, '│');
            self.draw_char(x + w, j, '│');
            j = j + 1;
        }
        proof {
            lemma_edge_rows_wf(edged, y as int + 1, y as int + h - 1, x as int, x as int + w);
        }
    }

    /// Draws an L-shaped connector: a horizontal run from just after `x0` to
    /// `x1` along row `y0`, then, if the rows differ, a corner at `(x1, y0)`
    /// and a vertical run toward row `y1`.
    pub fn draw_connector(&mut self, x0: u32, y0: u32, x1: u32, y1: u32)
        requires
            old(self)@.wf(),
            x0 < u32::MAX,
            y0 < u32::MAX,
            y1 < u32::MAX,
        ensures
            final(self)@ == old(self)@.draw_connector(x0 as int, y0 as int, x1 as int, y1 as int),
            final(self)@.wf(),
            final(self)@.w == old(self)@.w,
            final(self)@.h == old(self)@.h,
    {
        let mut i: u32 = x0 + 1;
        while i < x1
            invariant
                old(self)@.wf(),
                self@.wf(),
                x0 + 1 <= i,
                i <= x1 || i == x0 + 1,
                self@ == old(self)@.draw_hrun(x0 as int + 1, i as int, y0 as int),
            decreases x1 - i,
        {
            proof {
                lemma_hrun_wf(old(self)@, x0 as int + 1, i as int, y0 as int);
                lemma_hrun_snoc(old(self)@, x0 as int + 1, i as int, y0 as int);
            }
            self.draw_char(i, y0, '─');
            i = i + 1;
        }
        let ghost ruled = self@;
        proof {
            lemma_hrun_wf(old(self)@, x0 as int + 1, x1 as int, y0 as int);
        }
        if y0 == y1 {
            return ;
        }
        if y0 > y1 {
            self.draw_char(x1, y0, '┘');
            let ghost cornered = self@;
            let mut j: u32 = y1 + 1;
            while j < y0
                invariant
                    cornered.wf(),
                    self@.wf(),
                    y1 + 1 <= j,
                    j <= y0 || j == y1 + 1,
                    self@ == cornered.draw_vrun(y1 as int + 1, j as int, x1 as int),
                decreases y0 - j,
            {
                proof {
                    lemma_vrun_wf(cornered, y1 as int + 1, j as int, x1 as int);
                    lemma_vrun_snoc(cornered, y1 as int + 1, j as int, x1 as int);
                }
                self.draw_char(x1, j, '│');
                j = j + 1;
            }
            proof {
                lemma_vrun_wf(cornered, y1 as int + 1, y0 as int, x1 as int);
            }
        } else {
            self.draw_char(x1, y0, '┐');
            let ghost cornered = self@;
            let mut j: u32 = y0 + 1;
            while j < y1
                invariant
                    cornered.wf(),
                    self@.wf(),
                    y0 + 1 <= j,
                    j <= y1 || j == y0 + 1,
                    self@ == cornered.draw_vrun(y0 as int + 1, j as int, x1 as int),
                decreases y1 - j,
            {
                proof {
                    lemma_vrun_wf(cornered, y0 as int + 1, j as int, x1 as int);
                    lemma_vrun_snoc(cornered, y0 as int + 1, j as int, x1 as int);
                }
                self.draw_char(x1, j, '│');
                j = j + 1;
            }
            proof {
                lemma_vrun_wf(cornered, y0 as int + 1, y1 as int, x1 as int);
            }
        }
    }

    /// Serializes the canvas: rows top to bottom, each terminated by a line
    /// break, as one printable block.
    pub fn to_string(&self) -> (r: String)
        requires
            self@.wf(),
        ensures
            r@ == self@.text(),
    {
        let mut out: Vec<char> = Vec::new();
        let mut y: u32 = 0;
        while y < self.h
            invariant
                self@.wf(),
                y <= self@.h,
                out@ + self@.text_from(y as int) == self@.text(),
            decreases self@.h - y,
        {
            let ghost row_start = out@;
            let mut x: u32 = 0;
            while x < self.w
                invariant
                    self@.wf(),
                    y < self@.h,
                    x <= self@.w,
                    out@ == row_start + self@.row(y as int).take(x as int),
                decreases self@.w - x,
            {
                proof {
                    lemma_rowmajor_in_range(x as int, y as int, self@.w as int, self@.h as int);
                    lemma_row_bounds(y as int, self@.w as int, self@.h as int);
                    assert(self@.row(y as int).len() == self@.w);
                    assert(self@.row(y as int)[x as int] == self@.chars[y as int * self@.w
                        + x as int]);
                }
                let offset = (y * self.w + x) as usize;
                out.push(self.chars[offset]);
                proof {
                    assert(self@.row(y as int).take(x as int).push(
                        self@.chars[y as int * self@.w + x as int],
                    ) =~= self@.row(y as int).take(x as int + 1));
                }
                x = x + 1;
            }
            out.push('\n');
            proof {
                lemma_row_bounds(y as int, self@.w as int, self@.h as int);
                assert(self@.row(y as int).take(self@.w as int) =~= self@.row(y as int));
                assert(out@ =~= row_start + self@.row(y as int) + seq!['\n']);
                assert(row_start + self@.text_from(y as int) == row_start + (self@.row(y as int)
                    + seq!['\n'] + self@.text_from(y as int + 1)));
                assert(out@ + self@.text_from(y as int + 1) =~= row_start + self@.text_from(
                    y as int,
                ));
            }
            y = y + 1;
        }
        chars_to_string(&out)
    }
}

/// Relies on `String`'s `FromIterator<char>` implementation: collecting
/// characters yields the string of exactly those characters, in order.
#[verifier::external_body]
fn chars_to_string(v: &Vec<char>) -> (r: String)
    ensures
        r@ == v@,
{
    v.iter().collect()
}

} // verus!
