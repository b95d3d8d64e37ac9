//! One animation frame: clear the canvas to the background color, replay
//! the command prefix up to the reveal cursor, and rasterize every emitted
//! segment in the foreground color.

use crate::actions::ActionTable;
use crate::geom::MAX_COMMANDS;
use crate::geom::Viewport;
use crate::geom::round_px;
use crate::geom::round_px_spec;
use crate::geom::valid_dirs;
use crate::geom::valid_viewport;
use crate::raster::Canvas;
use crate::raster::covers;
use crate::raster::draw_line;
use crate::raster::line_points;
use crate::turtle::lemma_segments_bounds;
use crate::turtle::pen_bound;
use crate::turtle::prefix_len;
use crate::turtle::render_segments;
use crate::turtle::seg_views;
use crate::turtle::segments_spec;
use vstd::prelude::*;

verus! {

/// The pixels one emitted segment covers, after its subpixel endpoints are
/// rounded to pixels.
pub open spec fn seg_pixels(seg: (int, int, int, int)) -> Seq<(int, int)> {
    line_points(round_px_spec(seg.0), round_px_spec(seg.1), round_px_spec(seg.2), round_px_spec(seg.3))
}

/// Whether the pixel behind flat buffer index `p` lies on any of the
/// segments.
pub open spec fn frame_covers(segs: Seq<(int, int, int, int)>, p: int, w: int) -> bool {
    exists|i: int| 0 <= i < segs.len() && covers(seg_pixels(#[trigger] segs[i]), p, w)
}

/// Renders one frame: clears the canvas to `bg`, then draws, in `fg`,
/// every segment the turtle emits for `commands[0 .. min(cursor, len)]`.
/// Afterward a pixel holds `fg` exactly when some replayed segment covers
/// it, and `bg` otherwise.
pub fn render_frame(
    canvas: &mut Canvas,
    commands: &Vec<char>,
    cursor: usize,
    table: &ActionTable,
    dirs: &Vec<(i32, i32)>,
    vp: Viewport,
    bg: u32,
    fg: u32,
)
    requires
        old(canvas).wf(),
        valid_dirs(dirs@),
        valid_viewport(vp),
        commands@.len() <= MAX_COMMANDS,
    ensures
        final(canvas).wf(),
        final(canvas).spec_width() == old(canvas).spec_width(),
        final(canvas).spec_height() == old(canvas).spec_height(),
        final(canvas)@.len() == old(canvas)@.len(),
        forall|p: int|
            0 <= p < final(canvas)@.len() ==> final(canvas)@[p] == (if frame_covers(
                segments_spec(
                    commands@,
                    prefix_len(cursor as nat, commands@.len()),
                    table@,
                    dirs@,
                    vp,
                ),
                p,
                old(canvas).spec_width(),
            ) {
                fg
            } else {
                bg
            }),
{
    proof {
        old(canvas).lemma_wf_len();
    }
    canvas.clear(bg);
    let w = canvas.width();
    let h = canvas.height();
    proof {
        canvas.lemma_wf_len();
    }
    let segs = render_segments(commands, cursor, table, dirs, vp);
    let ghost k = prefix_len(cursor as nat, commands@.len());
    let ghost gsegs = segments_spec(commands@, k, table@, dirs@, vp);
    proof {
        lemma_segments_bounds(commands@, k, table@, dirs@, vp);
        assert(pen_bound(k as int) <= pen_bound(MAX_COMMANDS as int));
        assert(gsegs.take(0) =~= Seq::<(int, int, int, int)>::empty());
    }
    let n = segs.len();
    for i in 0..n
        invariant
            canvas.wf(),
            canvas.spec_width() == w,
            canvas.spec_height() == h,
            canvas@.len() == w * h,
            n == segs@.len(),
            seg_views(segs@) =~= gsegs,
            forall|t: int|
                0 <= t < gsegs.len() ==> {
                    let s = #[trigger] gsegs[t];
                    &&& -0x4000_0000_0000_0000 <= s.0 <= 0x4000_0000_0000_0000
                    &&& -0x4000_0000_0000_0000 <= s.1 <= 0x4000_0000_0000_0000
                    &&& -0x4000_0000_0000_0000 <= s.2 <= 0x4000_0000_0000_0000
                    &&& -0x4000_0000_0000_0000 <= s.3 <= 0x4000_0000_0000_0000
                },
            forall|p: int|
                0 <= p < canvas@.len() ==> canvas@[p] == (if frame_covers(
                    gsegs.take(i as int),
                    p,
                    w as int,
                ) {
                    fg
                } else {
                    bg
                }),
    {
        let s = segs[i];
        proof {
            assert(seg_views(segs@)[i as int] == s@);
            assert(gsegs[i as int] == s@);
        }
        let x0 = round_px(s.x0);
        let y0 = round_px(s.y0);
        let x1 = round_px(s.x1);
        let y1 = round_px(s.y1);
        draw_line(canvas, x0, y0, x1, y1, fg);
        proof {
            let wi = w as int;
            assert(seg_pixels(gsegs[i as int]) == line_points(
                x0 as int,
                y0 as int,
                x1 as int,
                y1 as int,
            ));
            assert(gsegs.take(i + 1)[i as int] == gsegs[i as int]);
            assert forall|p: int| 0 <= p < canvas@.len() implies canvas@[p] == (if frame_covers(
                gsegs.take(i + 1),
                p,
                wi,
            ) {
                fg
            } else {
                bg
            }) by {
                if covers(seg_pixels(gsegs[i as int]), p, wi) {
                    assert(canvas@[p] == fg);
                    assert(covers(seg_pixels(gsegs.take(i + 1)[i as int]), p, wi));
                    assert(frame_covers(gsegs.take(i + 1), p, wi));
                } else {
                    if frame_covers(gsegs.take(i as int), p, wi) {
                        let t = choose|t: int|
                            0 <= t < gsegs.take(i as int).len() && covers(
                                seg_pixels(#[trigger] gsegs.take(i as int)[t]),
                                p,
                                wi,
                            );
                        assert(gsegs.take(i + 1)[t] == gsegs.take(i as int)[t]);
                        assert(covers(seg_pixels(gsegs.take(i + 1)[t]), p, wi));
                        assert(frame_covers(gsegs.take(i + 1), p, wi));
                        assert(canvas@[p] == fg);
                    } else {
                        assert(canvas@[p] == bg || fg == bg);
                        if frame_covers(gsegs.take(i + 1), p, wi) {
                            let t = choose|t: int|
                                0 <= t < gsegs.take(i + 1).len() && covers(
                                    seg_pixels(#[trigger] gsegs.take(i + 1)[t]),
                                    p,
                                    wi,
                                );
                            if t == i as int {
                                assert(false);
                            } else {
                                assert(gsegs.take(i as int)[t] == gsegs.take(i + 1)[t]);
                                assert(covers(seg_pixels(gsegs.take(i as int)[t]), p, wi));
                                assert(frame_covers(gsegs.take(i as int), p, wi));
                                assert(false);
                            }
                        }
                    }
                }
            }
        }
    }
    proof {
        assert(gsegs.take(n as int) =~= gsegs);
    }
}

} // verus!
