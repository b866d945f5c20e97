//! Selection export as vector markup.
//!
//! Each stroke serializes to one element block carrying its origin-shifted
//! placement and kind; the selection export shifts every selected stroke so
//! the selection bounds become the new origin, joins the blocks with
//! newlines, and wraps them in a document envelope sized to the selection's
//! extent. The exact markup text is pinned down character for character by
//! spec functions, including the decimal rendering of the coordinates.

use vstd::prelude::*;
use vstd::string::StringExecFns;
use crate::geometry::{Aabb, Vec2, aabb_wf, vec2_ok};
use crate::stroke::Stroke;
use crate::state::StrokesState;

verus! {

use vstd::arithmetic::div_mod::{lemma_div_is_strictly_smaller, lemma_div_pos_is_pos};

/// Why a stroke could not be serialized.
#[derive(Clone, Copy, Debug, PartialEq, Eq, Structural)]
pub enum SvgError {
    /// The requested origin shift would move the stroke to negative
    /// coordinates, which the markup does not carry.
    OffsetOutOfRange,
}

/// The decimal text of one digit.
pub open spec fn spec_digit(d: int) -> Seq<char> {
    if d == 0 {
        "0"@
    } else if d == 1 {
        "1"@
    } else if d == 2 {
        "2"@
    } else if d == 3 {
        "3"@
    } else if d == 4 {
        "4"@
    } else if d == 5 {
        "5"@
    } else if d == 6 {
        "6"@
    } else if d == 7 {
        "7"@
    } else if d == 8 {
        "8"@
    } else {
        "9"@
    }
}

/// The decimal text of a nonnegative number.
pub open spec fn spec_dec(n: int) -> Seq<char>
    decreases n,
    when n >= 0
    via spec_dec_decreases
{
    if n < 10 {
        spec_digit(n)
    } else {
        spec_dec(n / 10) + spec_digit(n % 10)
    }
}

#[via_fn]
proof fn spec_dec_decreases(n: int) {
    if n >= 10 {
        lemma_div_is_strictly_smaller(n, 10);
        lemma_div_pos_is_pos(n, 10);
    }
}

/// The decimal text of one digit below ten.
fn digit_str(d: u64) -> (r: &'static str)
    requires
        d < 10,
    ensures
        r@ == spec_digit(d as int),
{
    match d {
        0 => "0",
        1 => "1",
        2 => "2",
        3 => "3",
        4 => "4",
        5 => "5",
        6 => "6",
        7 => "7",
        8 => "8",
        _ => "9",
    }
}

/// Append the decimal text of `n` to `s`.
fn push_u64(s: &mut String, n: u64)
    ensures
        final(s)@ == old(s)@ + spec_dec(n as int),
    decreases n,
{
    if n < 10 {
        s.append(digit_str(n));
    } else {
        push_u64(s, n / 10);
        s.append(digit_str(n % 10));
        proof {
            assert(s@ =~= old(s)@ + spec_dec(n as int));
        }
    }
}

/// The name of a stroke's variant, as carried in the markup.
pub open spec fn spec_kind_name(s: Stroke) -> Seq<char> {
    if s is MarkerStroke {
        "marker"@
    } else if s is BrushStroke {
        "brush"@
    } else if s is ShapeStroke {
        "shape"@
    } else if s is VectorImage {
        "vectorimage"@
    } else {
        "bitmapimage"@
    }
}

/// The stroke can be serialized with origin shift `v`: the shifted
/// placement stays at nonnegative coordinates.
pub open spec fn svg_data_ok(s: Stroke, v: Vec2) -> bool {
    &&& s.bounds_spec().min_x as int + v.x as int >= 0
    &&& s.bounds_spec().min_y as int + v.y as int >= 0
}

/// One element block: the stroke's shifted placement and kind.
pub open spec fn spec_stroke_svg(s: Stroke, v: Vec2) -> Seq<char> {
    let b = s.bounds_spec();
    let x = b.min_x as int + v.x as int;
    let y = b.min_y as int + v.y as int;
    let w = b.max_x as int - b.min_x as int;
    let h = b.max_y as int - b.min_y as int;
    "<rect x=\""@ + spec_dec(x) + "\" y=\""@ + spec_dec(y) + "\" width=\""@ + spec_dec(w)
        + "\" height=\""@ + spec_dec(h) + "\" class=\""@ + spec_kind_name(s) + "\"/>"@
}

impl Stroke {
    /// The name of the stroke's variant, as carried in the markup.
    pub fn kind_name(&self) -> (r: &'static str)
        ensures
            r@ == spec_kind_name(*self),
    {
        match self {
            Stroke::MarkerStroke { .. } => "marker",
            Stroke::BrushStroke { .. } => "brush",
            Stroke::ShapeStroke { .. } => "shape",
            Stroke::VectorImage { .. } => "vectorimage",
            Stroke::BitmapImage { .. } => "bitmapimage",
        }
    }

    /// Serialize the stroke as one markup element block, with its
    /// coordinates shifted by `offset`. Fails exactly when the shift would
    /// move the stroke to negative coordinates.
    pub fn gen_svg_data(&self, offset: Vec2) -> (r: Result<String, SvgError>)
        requires
            self.wf(),
            vec2_ok(offset),
        ensures
            match r {
                Ok(data) => svg_data_ok(*self, offset) && data@ == spec_stroke_svg(*self, offset),
                Err(e) => !svg_data_ok(*self, offset) && e == SvgError::OffsetOutOfRange,
            },
    {
        let b = self.bounds();
        let x = b.min_x + offset.x;
        let y = b.min_y + offset.y;
        if x < 0 || y < 0 {
            return Err(SvgError::OffsetOutOfRange);
        }
        let w = b.extent_x();
        let h = b.extent_y();
        let mut data = String::new();
        data.append("<rect x=\"");
        push_u64(&mut data, x as u64);
        data.append("\" y=\"");
        push_u64(&mut data, y as u64);
        data.append("\" width=\"");
        push_u64(&mut data, w as u64);
        data.append("\" height=\"");
        push_u64(&mut data, h as u64);
        data.append("\" class=\"");
        data.append(self.kind_name());
        data.append("\"/>");
        proof {
            assert(data@ =~= spec_stroke_svg(*self, offset));
        }
        Ok(data)
    }
}

/// The document envelope around the joined element blocks, sized `w` by
/// `h` with the origin at zero.
pub open spec fn spec_wrap(content: Seq<char>, w: int, h: int) -> Seq<char> {
    "<svg x=\"0\" y=\"0\" width=\""@ + spec_dec(w) + "\" height=\""@ + spec_dec(h)
        + "\" xmlns=\"http://www.w3.org/2000/svg\">\n"@ + content + "</svg>\n"@
}

/// Wrap already-joined element blocks in the document envelope.
pub fn wrap_svg(content: &str, w: i64, h: i64) -> (r: String)
    requires
        0 <= w,
        0 <= h,
    ensures
        r@ == spec_wrap(content@, w as int, h as int),
{
    let mut out = String::new();
    out.append("<svg x=\"0\" y=\"0\" width=\"");
    push_u64(&mut out, w as u64);
    out.append("\" height=\"");
    push_u64(&mut out, h as u64);
    out.append("\" xmlns=\"http://www.w3.org/2000/svg\">\n");
    out.append(content);
    out.append("</svg>\n");
    proof {
        assert(out@ =~= spec_wrap(content@, w as int, h as int));
    }
    out
}

/// The origin shift that moves box `b`'s minimum corner to the origin.
pub open spec fn spec_svg_offset(b: Aabb) -> Vec2 {
    Vec2 { x: (-(b.min_x as int)) as i64, y: (-(b.min_y as int)) as i64 }
}

/// The element blocks of the selected strokes among the first `n` arena
/// slots, each shifted by `v`, newline-joined in ascending key order.
/// A stroke whose markup cannot be produced is skipped, the documented
/// best-effort aggregation.
pub open spec fn spec_svg_content_upto(s: StrokesState, n: int, v: Vec2) -> Seq<char>
    decreases n,
{
    if n <= 0 {
        Seq::<char>::empty()
    } else {
        spec_svg_content_upto(s, n - 1, v) + if s.is_selected(n - 1) && svg_data_ok(
            s.strokes@[n - 1]->Some_0,
            v,
        ) {
            spec_stroke_svg(s.strokes@[n - 1]->Some_0, v) + "\n"@
        } else {
            Seq::<char>::empty()
        }
    }
}

impl StrokesState {
    /// The selection as a wrapped markup document: every selected stroke's
    /// element block with the selection bounds as the new origin, inside an
    /// envelope sized to the selection's extent; nothing if nothing is
    /// selected.
    pub fn gen_svg_selection(&self) -> (r: Option<String>)
        requires
            self.inv(),
        ensures
            match r {
                None => self.selection_bounds is None,
                Some(data) => {
                    &&& self.selection_bounds is Some
                    &&& data@ == spec_wrap(
                        spec_svg_content_upto(
                            *self,
                            self.num_strokes(),
                            spec_svg_offset(self.selection_bounds->Some_0),
                        ),
                        self.selection_bounds->Some_0.max_x as int
                            - self.selection_bounds->Some_0.min_x as int,
                        self.selection_bounds->Some_0.max_y as int
                            - self.selection_bounds->Some_0.min_y as int,
                    )
                },
            },
    {
        let b = match &self.selection_bounds {
            Some(b) => *b,
            None => {
                return None;
            },
        };
        proof {
            crate::state::lemma_upto_wf(*self, self.num_strokes());
        }
        let off = Vec2 { x: -b.min_x, y: -b.min_y };
        let n = self.strokes.len();
        let mut content = String::new();
        let mut i: usize = 0;
        while i < n
            invariant
                self.inv(),
                self.selection_bounds == Some(b),
                aabb_wf(b),
                off == spec_svg_offset(b),
                vec2_ok(off),
                n == self.num_strokes(),
                0 <= i <= n,
                content@ == spec_svg_content_upto(*self, i as int, off),
            decreases n - i,
        {
            let sel = match self.selection_components[i] {
                Some(c) => c.selected,
                None => false,
            };
            if sel {
                let piece = match &self.strokes[i] {
                    Some(st) => st.gen_svg_data(off),
                    None => vstd::pervasive::unreached(),
                };
                match piece {
                    Ok(data) => {
                        content.append(data.as_str());
                        content.append("\n");
                        proof {
                            assert(content@ =~= spec_svg_content_upto(*self, i + 1, off));
                        }
                    },
                    Err(_) => {},
                }
            }
            i = i + 1;
        }
        let w = b.extent_x();
        let h = b.extent_y();
        Some(wrap_svg(content.as_str(), w, h))
    }
}

} // verus!
