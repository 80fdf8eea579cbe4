//! The renderer: the single entry point that sizes the canvas from the glyph
//! span, draws every glyph through a fixed content-code table, places all
//! annotations, draws their boxes and connectors, and serializes the result.

use vstd::prelude::*;

use crate::canvas::Canvas;
use crate::canvas::CanvasView;
use crate::canvas::lemma_draw_char_wf;
use crate::graphics::Text;
use crate::graphics::Visual;
use crate::layout::Annotation;
use crate::layout::ann_core;
use crate::layout::collect;
use crate::layout::collect_spec;
use crate::layout::get_max_text_len;
use crate::layout::get_span;
use crate::layout::lemma_collect_bounds;
use crate::layout::lemma_max_text_len_upper;
use crate::layout::lemma_place_bounds;
use crate::layout::lemma_span_bounds;
use crate::layout::lemma_span_upper;
use crate::layout::max_text_len;
use crate::layout::place;
use crate::layout::place_spec;
use crate::layout::span_h;
use crate::layout::span_w;

verus! {

/// The largest glyph coordinate the renderer accepts; canvas offsets stay
/// within `u32` for any input under this bound.
pub const COORD_LIMIT: u32 = 0x7FFF;

/// The largest label length the renderer accepts.
pub const TEXT_LIMIT: u32 = 0x7FFF;

/// The largest number of (glyph, label) pairs the renderer accepts; the
/// congestion score of any arrangement under this bound fits in `u64`.
pub const PAIR_LIMIT: u32 = 0x8000;

/// The fixed lookup table from content code to glyph character; a code
/// outside the table renders the sentinel `X`, visibly flagging unknown data
/// instead of failing.
pub open spec fn glyph_char(content: u32) -> char {
    if content == 0 {
        ' '
    } else if content == 1 {
        '□'
    } else if content == 2 {
        '△'
    } else if content == 3 {
        '▽'
    } else if content == 4 {
        '>'
    } else if content == 5 {
        '<'
    } else {
        'X'
    }
}

/// Renders one content code as its glyph character; see [`glyph_char`].
pub fn render_img(img: u32) -> (r: char)
    ensures
        r == glyph_char(img),
{
    match img {
        0 => ' ',
        1 => '□',
        2 => '△',
        3 => '▽',
        4 => '>',
        5 => '<',
        _ => 'X',
    }
}

/// A blank canvas of the given dimensions, every cell a space.
pub open spec fn blank_canvas(w: int, h: int) -> CanvasView {
    CanvasView { w: w as nat, h: h as nat, chars: Seq::new((w * h) as nat, |i: int| ' ') }
}

/// Every glyph drawn at its position offset by the margins `(vx, vy)`.
pub open spec fn draw_glyphs(c: CanvasView, vs: Seq<Visual>, vx: int, vy: int) -> CanvasView
    decreases vs.len(),
{
    if vs.len() == 0 {
        c
    } else {
        draw_glyphs(c, vs.drop_last(), vx, vy).draw_char(
            vx + vs.last().x,
            vy + vs.last().y,
            glyph_char(vs.last().content),
        )
    }
}

/// One placed annotation drawn: its text inside the box, the box outline,
/// and the connector from the box's anchor row to the glyph it annotates.
pub open spec fn draw_annotation(c: CanvasView, a: Annotation, vx: int, vy: int) -> CanvasView {
    c.draw_string(a.pos.x + 1, a.pos.y + 1, a.text@).draw_box(
        a.pos.x as int,
        a.pos.y as int,
        a.w as int,
        a.h as int,
    ).draw_connector(a.w as int, a.pos.y + 1, vx + a.target_pos.x, vy + a.target_pos.y)
}

/// All placed annotations drawn, in order.
pub open spec fn draw_annotations(c: CanvasView, anns: Seq<Annotation>, vx: int, vy: int) -> CanvasView
    decreases anns.len(),
{
    if anns.len() == 0 {
        c
    } else {
        draw_annotation(draw_annotations(c, anns.drop_last(), vx, vy), anns.last(), vx, vy)
    }
}

/// The whole frame as a function of the input alone: a blank canvas sized
/// from the glyph span plus fixed margins, the glyphs, then the placed
/// annotations, serialized to text. With no labels, the left margin is 10
/// columns and nothing but glyphs is drawn.
pub open spec fn render_spec(vs: Seq<Visual>, ts: Seq<Text>) -> Seq<char> {
    let vx = max_text_len(ts) + 10;
    let vy: int = 5;
    let c0 = blank_canvas(vx + span_w(vs), vy + span_h(vs));
    let c1 = draw_glyphs(c0, vs, vx, vy);
    let anns = place_spec(collect_spec(vs, ts));
    draw_annotations(c1, anns, vx, vy).text()
}

/// Drawing glyphs moves no canvas boundary.
pub proof fn lemma_draw_glyphs_wf(c: CanvasView, vs: Seq<Visual>, vx: int, vy: int)
    ensures
        draw_glyphs(c, vs, vx, vy).w == c.w,
        draw_glyphs(c, vs, vx, vy).h == c.h,
        c.wf() ==> draw_glyphs(c, vs, vx, vy).wf(),
    decreases vs.len(),
{
    if vs.len() > 0 {
        lemma_draw_glyphs_wf(c, vs.drop_last(), vx, vy);
        lemma_draw_char_wf(
            draw_glyphs(c, vs.drop_last(), vx, vy),
            vx + vs.last().x,
            vy + vs.last().y,
            glyph_char(vs.last().content),
        );
    }
}

/// No glyph is ever clipped for well-formed inputs: with margins `(vx, vy)`
/// computed from the labels and the span `(w, h)` computed from the glyphs,
/// every glyph's canvas coordinates lie within `[vx, vx + w) x [vy, vy + h)`,
/// which lies inside the canvas the renderer allocates.
pub proof fn lemma_glyphs_in_bounds(vs: Seq<Visual>, ts: Seq<Text>)
    ensures
        forall|i: int|
            0 <= i < vs.len() ==> {
                let vx = max_text_len(ts) + 10;
                let vy: int = 5;
                &&& vx <= vx + (#[trigger] vs[i]).x < vx + span_w(vs)
                &&& vy <= vy + vs[i].y < vy + span_h(vs)
                &&& blank_canvas(vx + span_w(vs), vy + span_h(vs)).draw_char(
                    vx + vs[i].x,
                    vy + vs[i].y,
                    glyph_char(vs[i].content),
                ) != blank_canvas(vx + span_w(vs), vy + span_h(vs)) || vs[i].content == 0
            },
{
    lemma_span_bounds(vs);
    crate::layout::lemma_max_text_len_bounds(ts);
    let vx = max_text_len(ts) + 10;
    let vy: int = 5;
    let cw = vx + span_w(vs);
    let ch = vy + span_h(vs);
    let c0 = blank_canvas(cw, ch);
    assert forall|i: int| 0 <= i < vs.len() implies (c0.draw_char(
        vx + vs[i].x,
        vy + vs[i].y,
        glyph_char(vs[i].content),
    ) != c0 || vs[i].content == 0) by {
        let x = vx + vs[i].x;
        let y = vy + vs[i].y;
        crate::canvas::lemma_rowmajor_in_range(x, y, cw, ch);
        if vs[i].content != 0 {
            assert(c0.chars[y * cw + x] == ' ');
            assert(glyph_char(vs[i].content) != ' ');
            assert(c0.draw_char(x, y, glyph_char(vs[i].content)).chars[y * cw + x] != ' ');
        }
    }
}

/// With no labels the frame is glyphs alone: the left margin is the fixed 10
/// columns, no annotation is collected or placed, and no box or connector is
/// drawn.
pub proof fn lemma_render_no_labels(vs: Seq<Visual>)
    ensures
        render_spec(vs, Seq::empty()) == draw_glyphs(
            blank_canvas(10 + span_w(vs), 5 + span_h(vs)),
            vs,
            10,
            5,
        ).text(),
{
    let ts = Seq::<Text>::empty();
    assert(max_text_len(ts) == 0);
    lemma_collect_empty(vs);
    assert(place_spec(Seq::<Annotation>::empty()) == Seq::<Annotation>::empty());
    let c1 = draw_glyphs(blank_canvas(10 + span_w(vs), 5 + span_h(vs)), vs, 10, 5);
    assert(draw_annotations(c1, Seq::<Annotation>::empty(), 10, 5) == c1);
}

/// With no labels nothing is collected: no glyph has a matching label.
proof fn lemma_collect_empty(vs: Seq<Visual>)
    ensures
        collect_spec(vs, Seq::empty()) == Seq::<Annotation>::empty(),
    decreases vs.len(),
{
    if vs.len() > 0 {
        lemma_collect_empty(vs.drop_last());
        assert(collect_spec(vs, Seq::empty()) =~= Seq::<Annotation>::empty());
    }
}

/// Renders glyphs and labels into one printable text block; see
/// [`render_spec`]. The input bounds keep every canvas offset within `u32`
/// and every congestion score within `u64`.
#[verifier::loop_isolation(false)]
pub fn render(visuals: &Vec<Visual>, texts: &Vec<Text>) -> (r: String)
    requires
        forall|k: int| 0 <= k < visuals@.len() ==> visuals@[k].x <= COORD_LIMIT && visuals@[k].y
            <= COORD_LIMIT,
        forall|k: int| 0 <= k < texts@.len() ==> crate::layout::text_len_of(texts@[k])
            <= TEXT_LIMIT,
        visuals@.len() * texts@.len() <= PAIR_LIMIT,
    ensures
        r@ == render_spec(visuals@, texts@),
{
    proof {
        lemma_span_upper(visuals@, COORD_LIMIT as int, COORD_LIMIT as int);
        lemma_span_bounds(visuals@);
        lemma_max_text_len_upper(texts@, TEXT_LIMIT as int);
    }
    let (w, h) = get_span(visuals);
    let text_len = get_max_text_len(texts);
    let vx = text_len + 10;
    let vy: u32 = 5;
    proof {
        assert((vx + w) * (vy + h) <= u32::MAX) by (nonlinear_arith)
            requires
                vx + w <= 0x1_000A,
                vy + h <= 0x8005,
        ;
    }
    let mut canvas = Canvas::new(vx + w, vy + h);
    proof {
        assert(canvas@ == blank_canvas(vx + w as int, vy + h as int));
    }
    let ghost c0 = canvas@;

    let mut i: usize = 0;
    while i < visuals.len()
        invariant
            i <= visuals@.len(),
            canvas@ == draw_glyphs(c0, visuals@.take(i as int), vx as int, vy as int),
            canvas@.wf(),
            canvas@.w == c0.w,
            canvas@.h == c0.h,
        decreases visuals@.len() - i,
    {
        proof {
            assert(visuals@.take(i as int + 1).drop_last() =~= visuals@.take(i as int));
            assert(visuals@.take(i as int + 1).last() == visuals@[i as int]);
        }
        let v = &visuals[i];
        canvas.draw_char(vx + v.x, vy + v.y, render_img(v.content));
        i = i + 1;
    }
    proof {
        assert(visuals@.take(visuals@.len() as int) =~= visuals@);
    }
    let ghost c1 = canvas@;

    let mut annotations = collect(visuals, texts);
    proof {
        lemma_collect_bounds(
            visuals@,
            texts@,
            COORD_LIMIT as int,
            COORD_LIMIT as int,
            TEXT_LIMIT as int,
        );
    }
    place(&mut annotations);
    let ghost anns = annotations@;
    proof {
        lemma_place_bounds(
            collect_spec(visuals@, texts@),
            COORD_LIMIT as int,
            COORD_LIMIT as int,
            TEXT_LIMIT as int,
        );
    }

    let mut j: usize = 0;
    while j < annotations.len()
        invariant
            j <= anns.len(),
            annotations@ == anns,
            canvas@ == draw_annotations(c1, anns.take(j as int), vx as int, vy as int),
            canvas@.wf(),
            canvas@.w == c1.w,
            canvas@.h == c1.h,
        decreases anns.len() - j,
    {
        proof {
            assert(anns.take(j as int + 1).drop_last() =~= anns.take(j as int));
            assert(anns.take(j as int + 1).last() == anns[j as int]);
            assert(ann_core(anns[j as int], COORD_LIMIT as int, COORD_LIMIT as int, TEXT_LIMIT as int));
        }
        let a = &annotations[j];
        canvas.draw_string(a.pos.x + 1, a.pos.y + 1, a.text.as_str());
        canvas.draw_box(a.pos.x, a.pos.y, a.w, a.h);
        canvas.draw_connector(a.w, a.pos.y + 1, vx + a.target_pos.x, vy + a.target_pos.y);
        j = j + 1;
    }
    proof {
        assert(anns.take(anns.len() as int) =~= anns);
    }
    canvas.to_string()
}

} // verus!
