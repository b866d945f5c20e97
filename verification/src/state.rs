//! The canvas object store and the selection engine.
//!
//! Strokes live in an arena: a vector whose indices are the stable stroke
//! keys (entries are never reused while the state lives, removal leaves a
//! hole). Beside the arena stand the per-aspect component tables, all of the
//! same length and keyed by the same indices. The engine owns the selection
//! and chrono tables and maintains the store's central derived value: the
//! selection bounds, which after every operation equal the union of the
//! bounds of the currently selected strokes, or nothing when the selection
//! is empty. That property is part of [`StrokesState::inv`], which every
//! operation requires and re-establishes.
//!
//! The surrounding application drives these calls from one control thread;
//! chrono stamps are therefore assigned in a sequential scan, which keeps
//! the counter free of lost updates and makes the assigned stamps exact
//! rather than merely distinct.

use vstd::prelude::*;
use crate::components::{ChronoComponent, RenderComponent, SelectionComponent, TrashComponent};
use crate::geometry::{
    Aabb, Vec2, aabb_wf, spec_merge, spec_translate, spec_contains, can_translate,
    is_mapped_aabb, map_aabb, lemma_merge_translate, lemma_merge_wf, lemma_mapped_merge,
    lemma_mapped_src_is_dst,
};
use crate::geometry::spec_intersects;
use crate::selector::Selector;
use crate::stroke::{Stroke, is_translated, is_resized, same_kind, spec_hit, stroke_like};

verus! {

/// A stable identifier for one stroke: its arena index.
pub type StrokeKey = usize;

/// The aggregate holding the stroke arena and all component tables,
/// together with the selection engine's derived state.
pub struct StrokesState {
    pub strokes: Vec<Option<Stroke>>,
    pub selection_components: Vec<Option<SelectionComponent>>,
    pub chrono_components: Vec<Option<ChronoComponent>>,
    pub render_components: Vec<Option<RenderComponent>>,
    pub trash_components: Vec<Option<TrashComponent>>,
    /// One shared counter establishing the total order of selection touches.
    pub chrono_counter: u64,
    /// The union of the selected strokes' bounds, or nothing.
    pub selection_bounds: Option<Aabb>,
}

impl StrokesState {
    /// Number of arena slots (live and removed strokes together).
    pub open spec fn num_strokes(self) -> int {
        self.strokes@.len() as int
    }

    /// All component tables run parallel to the arena.
    pub open spec fn lens_ok(self) -> bool {
        &&& self.selection_components@.len() == self.strokes@.len()
        &&& self.chrono_components@.len() == self.strokes@.len()
        &&& self.render_components@.len() == self.strokes@.len()
        &&& self.trash_components@.len() == self.strokes@.len()
    }

    /// The stroke `key` supports selection.
    pub open spec fn has_selection_component(self, key: int) -> bool {
        0 <= key < self.selection_components@.len() && self.selection_components@[key] is Some
    }

    /// The stroke `key` is part of the current selection.
    pub open spec fn is_selected(self, key: int) -> bool {
        self.has_selection_component(key) && self.selection_components@[key]->Some_0.selected
    }

    /// The bounds of the stroke at `key` (meaningful when the slot is live).
    pub open spec fn stroke_bounds_at(self, key: int) -> Aabb {
        self.strokes@[key]->Some_0.bounds_spec()
    }

    /// Union of the bounds of the selected strokes among the first `n`
    /// arena slots, or nothing if none of them is selected.
    pub open spec fn sel_bounds_upto(self, n: int) -> Option<Aabb>
        decreases n,
    {
        if n <= 0 {
            None::<Aabb>
        } else {
            let rest = self.sel_bounds_upto(n - 1);
            if self.is_selected(n - 1) {
                match rest {
                    Option::None => Some(self.stroke_bounds_at(n - 1)),
                    Option::Some(b) => Some(spec_merge(b, self.stroke_bounds_at(n - 1))),
                }
            } else {
                rest
            }
        }
    }

    /// Union of the bounds of all selected strokes, or nothing.
    pub open spec fn spec_selection_bounds(self) -> Option<Aabb> {
        self.sel_bounds_upto(self.num_strokes())
    }

    /// Number of selected strokes among the first `n` arena slots.
    pub open spec fn num_selected_upto(self, n: int) -> int
        decreases n,
    {
        if n <= 0 {
            0
        } else {
            self.num_selected_upto(n - 1) + if self.is_selected(n - 1) {
                1int
            } else {
                0int
            }
        }
    }

    /// Number of selected strokes.
    pub open spec fn num_selected(self) -> int {
        self.num_selected_upto(self.num_strokes())
    }

    /// The selected arena indices in ascending order, among the first `n`.
    pub open spec fn sel_keys_upto(self, n: int) -> Seq<int>
        decreases n,
    {
        if n <= 0 {
            Seq::<int>::empty()
        } else {
            self.sel_keys_upto(n - 1) + if self.is_selected(n - 1) {
                seq![n - 1]
            } else {
                Seq::<int>::empty()
            }
        }
    }

    /// Structural well-formedness: tables parallel to the arena, selectable
    /// slots live, live strokes well-formed, and cached render images placed
    /// at their stroke's bounds.
    pub open spec fn wf_core(self) -> bool {
        &&& self.lens_ok()
        &&& forall|i: int|
            0 <= i < self.num_strokes() && self.selection_components@[i] is Some
                ==> #[trigger] self.strokes@[i] is Some
        &&& forall|i: int|
            0 <= i < self.num_strokes() && self.strokes@[i] is Some
                ==> (#[trigger] self.strokes@[i]->Some_0).wf()
        &&& forall|i: int|
            0 <= i < self.num_strokes() && #[trigger] self.render_components@[i] is Some
                ==> self.strokes@[i] is Some && self.render_components@[i]->Some_0.image_bounds
                    == self.stroke_bounds_at(i)
    }

    /// The selection-bounds invariant: the stored bounds equal the union of
    /// the selected strokes' bounds. Every engine operation preserves it.
    pub open spec fn bounds_invariant(self) -> bool {
        self.selection_bounds == self.spec_selection_bounds()
    }

    /// The state's full invariant.
    pub open spec fn inv(self) -> bool {
        self.wf_core() && self.bounds_invariant()
    }

    /// A fresh, empty canvas state.
    pub fn new() -> (r: StrokesState)
        ensures
            r.inv(),
            r.num_strokes() == 0,
            r.chrono_counter == 0,
            r.selection_bounds is None,
    {
        StrokesState {
            strokes: Vec::new(),
            selection_components: Vec::new(),
            chrono_components: Vec::new(),
            render_components: Vec::new(),
            trash_components: Vec::new(),
            chrono_counter: 0,
            selection_bounds: None,
        }
    }

    /// Insert a stroke into the arena, creating its component entries, and
    /// return its key. The new stroke starts deselected, untrashed and
    /// renderable, with its cached render placement at its bounds.
    pub fn insert_stroke(&mut self, stroke: Stroke) -> (key: StrokeKey)
        requires
            old(self).inv(),
            stroke.wf(),
            old(self).num_strokes() < usize::MAX,
        ensures
            final(self).inv(),
            key as int == old(self).num_strokes(),
            final(self).num_strokes() == old(self).num_strokes() + 1,
            final(self).strokes@ == old(self).strokes@.push(Some(stroke)),
            final(self).selection_components@ == old(self).selection_components@.push(
                Some(SelectionComponent { selected: false }),
            ),
            final(self).chrono_components@ == old(self).chrono_components@.push(
                Some(ChronoComponent { t: 0 }),
            ),
            final(self).trash_components@ == old(self).trash_components@.push(
                Some(TrashComponent { trashed: false }),
            ),
            final(self).render_components@ == old(self).render_components@.push(
                Some(
                    RenderComponent {
                        render: true,
                        regenerate_flag: true,
                        image_bounds: stroke.bounds_spec(),
                        node_bounds: stroke.bounds_spec(),
                    },
                ),
            ),
            final(self).chrono_counter == old(self).chrono_counter,
            final(self).selection_bounds == old(self).selection_bounds,
            forall|i: int|
                0 <= i < old(self).num_strokes() ==> final(self).is_selected(i) == old(
                    self,
                ).is_selected(i),
            !final(self).is_selected(old(self).num_strokes()),
    {
        let key = self.strokes.len();
        let b = stroke.bounds();
        self.strokes.push(Some(stroke));
        self.selection_components.push(Some(SelectionComponent { selected: false }));
        self.chrono_components.push(Some(ChronoComponent { t: 0 }));
        self.render_components.push(
            Some(
                RenderComponent {
                    render: true,
                    regenerate_flag: true,
                    image_bounds: b,
                    node_bounds: b,
                },
            ),
        );
        self.trash_components.push(Some(TrashComponent { trashed: false }));
        proof {
            lemma_sel_bounds_agree(*old(self), *self, old(self).num_strokes());
            assert(self.spec_selection_bounds() == old(self).sel_bounds_upto(
                old(self).num_strokes(),
            ));
        }
        key
    }

    /// Whether the stroke supports selection at all: false for an invalid
    /// key or a stroke without a selection component.
    pub fn can_select(&self, key: StrokeKey) -> (r: bool)
        ensures
            r == self.has_selection_component(key as int),
    {
        key < self.selection_components.len() && self.selection_components[key].is_some()
    }

    /// The stroke's current selection flag, or nothing if the key has no
    /// selection component (a recoverable condition the caller may branch
    /// on; no batch operation is aborted by it).
    pub fn selected(&self, key: StrokeKey) -> (r: Option<bool>)
        ensures
            match r {
                Some(v) => self.has_selection_component(key as int) && v == self.is_selected(
                    key as int,
                ),
                None => !self.has_selection_component(key as int),
            },
    {
        if key < self.selection_components.len() {
            match self.selection_components[key] {
                Some(c) => Some(c.selected),
                None => None,
            }
        } else {
            None
        }
    }

    /// Recompute the stored selection bounds as the union of the selected
    /// strokes' bounds (a full scan of the arena).
    pub fn update_selection_bounds(&mut self)
        requires
            old(self).wf_core(),
        ensures
            final(self).strokes@ == old(self).strokes@,
            final(self).selection_components@ == old(self).selection_components@,
            final(self).chrono_components@ == old(self).chrono_components@,
            final(self).render_components@ == old(self).render_components@,
            final(self).trash_components@ == old(self).trash_components@,
            final(self).chrono_counter == old(self).chrono_counter,
            final(self).inv(),
    {
        let n = self.strokes.len();
        let mut acc: Option<Aabb> = None;
        let mut i: usize = 0;
        while i < n
            invariant
                self.wf_core(),
                n == self.num_strokes(),
                0 <= i <= n,
                acc == self.sel_bounds_upto(i as int),
            decreases n - i,
        {
            let sel = match self.selection_components[i] {
                Some(c) => c.selected,
                None => false,
            };
            if sel {
                let b = match &self.strokes[i] {
                    Some(st) => st.bounds(),
                    None => vstd::pervasive::unreached(),
                };
                acc = match acc {
                    None => Some(b),
                    Some(a) => Some(a.merge(&b)),
                };
            }
            i = i + 1;
        }
        self.selection_bounds = acc;
        proof {
            lemma_sel_bounds_agree(*old(self), *self, n as int);
        }
    }

    /// Set the stroke's selection flag. On a transition to selected the
    /// shared chrono counter advances and stamps the stroke's chrono
    /// component; the stored selection bounds are recomputed afterwards.
    /// A key without a selection component leaves the state untouched, the
    /// recoverable "not selectable" outcome.
    pub fn set_selected(&mut self, key: StrokeKey, selected: bool)
        requires
            old(self).inv(),
            old(self).chrono_counter < u64::MAX,
        ensures
            final(self).inv(),
            set_selected_rel(*old(self), *final(self), key as int, selected),
    {
        if key < self.selection_components.len() && self.selection_components[key].is_some() {
            self.selection_components[key] = Some(SelectionComponent { selected });
            if selected {
                if self.chrono_components[key].is_some() {
                    self.chrono_counter = self.chrono_counter + 1;
                    self.chrono_components[key] = Some(ChronoComponent { t: self.chrono_counter });
                }
            }
            self.update_selection_bounds();
        }
    }

    /// All keys of currently selected strokes, in ascending key order.
    pub fn keys_selection(&self) -> (r: Vec<StrokeKey>)
        requires
            self.lens_ok(),
        ensures
            r@.len() == self.num_selected(),
            forall|m: int|
                0 <= m < r@.len() ==> #[trigger] r@[m] as int == self.sel_keys_upto(
                    self.num_strokes(),
                )[m],
    {
        let n = self.selection_components.len();
        let mut r: Vec<StrokeKey> = Vec::new();
        let mut i: usize = 0;
        while i < n
            invariant
                self.lens_ok(),
                n == self.num_strokes(),
                0 <= i <= n,
                r@.len() == self.num_selected_upto(i as int),
                forall|m: int|
                    0 <= m < r@.len() ==> #[trigger] r@[m] as int == self.sel_keys_upto(i as int)[m],
            decreases n - i,
        {
            let sel = match self.selection_components[i] {
                Some(c) => c.selected,
                None => false,
            };
            proof {
                self.lemma_sel_keys_counts(i as int);
                self.lemma_sel_keys_counts(i + 1);
            }
            if sel {
                r.push(i);
            }
            i = i + 1;
        }
        r
    }

    /// Number of currently selected strokes.
    pub fn selection_len(&self) -> (r: usize)
        requires
            self.lens_ok(),
        ensures
            r as int == self.num_selected(),
    {
        let n = self.selection_components.len();
        let mut count: usize = 0;
        let mut i: usize = 0;
        while i < n
            invariant
                self.lens_ok(),
                n == self.num_strokes(),
                0 <= i <= n,
                count as int == self.num_selected_upto(i as int),
            decreases n - i,
        {
            let sel = match self.selection_components[i] {
                Some(c) => c.selected,
                None => false,
            };
            proof {
                self.lemma_sel_keys_counts(i + 1);
            }
            if sel {
                count = count + 1;
            }
            i = i + 1;
        }
        count
    }

    /// `num_selected_upto` and `sel_keys_upto` agree and stay within range.
    pub proof fn lemma_sel_keys_counts(self, n: int)
        ensures
            0 <= self.num_selected_upto(n),
            n >= 0 ==> self.num_selected_upto(n) <= n,
            self.sel_keys_upto(n).len() == self.num_selected_upto(n),
            forall|m: int|
                0 <= m < self.sel_keys_upto(n).len() ==> 0 <= #[trigger] self.sel_keys_upto(n)[m]
                    < n && self.is_selected(self.sel_keys_upto(n)[m]),
        decreases n,
    {
        if n > 0 {
            self.lemma_sel_keys_counts(n - 1);
        }
    }
}

/// Two states agreeing on their first `n` selection entries and strokes
/// have the same selection union over those entries.
pub proof fn lemma_sel_bounds_agree(s1: StrokesState, s2: StrokesState, n: int)
    requires
        n <= s1.num_strokes(),
        n <= s2.num_strokes(),
        n <= s1.selection_components@.len(),
        n <= s2.selection_components@.len(),
        forall|i: int|
            0 <= i < n ==> #[trigger] s1.selection_components@[i] == s2.selection_components@[i]
                && s1.strokes@[i] == s2.strokes@[i],
    ensures
        s1.sel_bounds_upto(n) == s2.sel_bounds_upto(n),
        s1.num_selected_upto(n) == s2.num_selected_upto(n),
        s1.sel_keys_upto(n) == s2.sel_keys_upto(n),
    decreases n,
{
    if n > 0 {
        assert forall|i: int|
            0 <= i < n - 1 implies #[trigger] s1.selection_components@[i]
            == s2.selection_components@[i] && s1.strokes@[i] == s2.strokes@[i] by {
            assert(s1.selection_components@[i] == s2.selection_components@[i]);
        }
        lemma_sel_bounds_agree(s1, s2, n - 1);
        assert(s1.is_selected(n - 1) == s2.is_selected(n - 1));
        if s1.sel_keys_upto(n).len() > 0 || s2.sel_keys_upto(n).len() > 0 {
            assert(s1.sel_keys_upto(n) =~= s2.sel_keys_upto(n));
        } else {
            assert(s1.sel_keys_upto(n) =~= s2.sel_keys_upto(n));
        }
    } else {
        assert(s1.sel_keys_upto(n) =~= s2.sel_keys_upto(n));
    }
}

/// If none of the first `n` slots is selected, their union is nothing.
pub proof fn lemma_sel_bounds_none(s: StrokesState, n: int)
    requires
        forall|i: int| 0 <= i < n ==> !s.is_selected(i),
    ensures
        s.sel_bounds_upto(n) is None,
    decreases n,
{
    if n > 0 {
        lemma_sel_bounds_none(s, n - 1);
    }
}

/// Every selected stroke's bounds lie inside the selection union, and the
/// union of well-formed boxes is well-formed.
pub proof fn lemma_sel_bounds_contains(s: StrokesState, n: int)
    requires
        s.wf_core(),
        n <= s.num_strokes(),
    ensures
        s.sel_bounds_upto(n) is Some ==> aabb_wf(s.sel_bounds_upto(n)->Some_0),
        forall|i: int|
            0 <= i < n && #[trigger] s.is_selected(i) ==> s.sel_bounds_upto(n) is Some
                && spec_contains(s.sel_bounds_upto(n)->Some_0, s.stroke_bounds_at(i)),
{
    assert forall|i: int| 0 <= i < n && #[trigger] s.is_selected(i) implies s.sel_bounds_upto(n)
        is Some && spec_contains(s.sel_bounds_upto(n)->Some_0, s.stroke_bounds_at(i)) by {
        assert(s.strokes@[i] is Some);
        assert(s.strokes@[i]->Some_0.wf());
        match s.sel_bounds_upto(i) {
            Option::None => {},
            Option::Some(b) => {
                lemma_upto_wf(s, i);
                lemma_merge_wf(b, s.stroke_bounds_at(i));
            },
        }
        assert(s.sel_bounds_upto(i + 1) is Some && spec_contains(
            s.sel_bounds_upto(i + 1)->Some_0,
            s.stroke_bounds_at(i),
        ));
        lemma_upto_grows(s, i + 1, n);
    }
    lemma_upto_wf(s, n);
}

/// A selection union over a prefix is a well-formed box when it exists.
pub proof fn lemma_upto_wf(s: StrokesState, n: int)
    requires
        s.wf_core(),
        n <= s.num_strokes(),
    ensures
        s.sel_bounds_upto(n) is Some ==> aabb_wf(s.sel_bounds_upto(n)->Some_0),
    decreases n,
{
    if n > 0 {
        lemma_upto_wf(s, n - 1);
        if s.is_selected(n - 1) {
            assert(s.strokes@[n - 1] is Some);
            assert(s.strokes@[n - 1]->Some_0.wf());
            match s.sel_bounds_upto(n - 1) {
                Option::None => {},
                Option::Some(b) => {
                    lemma_merge_wf(b, s.stroke_bounds_at(n - 1));
                },
            }
        }
    }
}

/// Extending the scanned prefix only grows the selection union.
pub proof fn lemma_upto_grows(s: StrokesState, m: int, n: int)
    requires
        s.wf_core(),
        0 <= m <= n <= s.num_strokes(),
    ensures
        s.sel_bounds_upto(m) is Some ==> s.sel_bounds_upto(n) is Some && spec_contains(
            s.sel_bounds_upto(n)->Some_0,
            s.sel_bounds_upto(m)->Some_0,
        ),
    decreases n - m,
{
    if m < n {
        lemma_upto_grows(s, m, n - 1);
        if s.sel_bounds_upto(m) is Some {
            if s.is_selected(n - 1) {
                assert(s.strokes@[n - 1] is Some);
                assert(s.strokes@[n - 1]->Some_0.wf());
                match s.sel_bounds_upto(n - 1) {
                    Option::None => {},
                    Option::Some(b) => {
                        lemma_upto_wf(s, n - 1);
                        lemma_merge_wf(b, s.stroke_bounds_at(n - 1));
                    },
                }
            }
        }
    }
}

/// How `set_selected` relates the state after the call to the state before
/// it: a no-op without a selection component; otherwise the one flag is
/// written, a transition to selected advances and stamps the chrono
/// counter (when the stroke has a chrono component), and the selection
/// bounds are recomputed.
pub open spec fn set_selected_rel(pre: StrokesState, post: StrokesState, key: int, v: bool) -> bool {
    if !pre.has_selection_component(key) {
        post == pre
    } else {
        &&& post.strokes@ == pre.strokes@
        &&& post.selection_components@ == pre.selection_components@.update(
            key,
            Some(SelectionComponent { selected: v }),
        )
        &&& post.render_components@ == pre.render_components@
        &&& post.trash_components@ == pre.trash_components@
        &&& if v && pre.chrono_components@[key] is Some {
            &&& post.chrono_counter == pre.chrono_counter + 1
            &&& post.chrono_components@ == pre.chrono_components@.update(
                key,
                Some(ChronoComponent { t: post.chrono_counter }),
            )
        } else {
            &&& post.chrono_counter == pre.chrono_counter
            &&& post.chrono_components@ == pre.chrono_components@
        }
        &&& post.selection_bounds == post.spec_selection_bounds()
    }
}

impl StrokesState {
    /// The stroke would get a fresh chrono stamp in a full deselection pass:
    /// it is selected and carries a chrono component.
    pub open spec fn desel_stamped(self, i: int) -> bool {
        self.is_selected(i) && self.chrono_components@[i] is Some
    }

    /// Number of such strokes among the first `n` slots.
    pub open spec fn num_desel_stamped_upto(self, n: int) -> int
        decreases n,
    {
        if n <= 0 {
            0
        } else {
            self.num_desel_stamped_upto(n - 1) + if self.desel_stamped(n - 1) {
                1int
            } else {
                0int
            }
        }
    }

    pub proof fn lemma_desel_stamped_counts(self, n: int)
        ensures
            0 <= self.num_desel_stamped_upto(n),
            n >= 0 ==> self.num_desel_stamped_upto(n) <= n,
        decreases n,
    {
        if n > 0 {
            self.lemma_desel_stamped_counts(n - 1);
        }
    }

    /// Every selected stroke can be shifted by `v` without leaving the
    /// coordinate range.
    pub open spec fn selection_translatable(self, v: Vec2) -> bool {
        forall|i: int|
            0 <= i < self.num_strokes() && self.is_selected(i)
                ==> can_translate(#[trigger] self.stroke_bounds_at(i), v)
    }

    /// Deselect every stroke: all selection flags go to false, each
    /// previously selected stroke with a chrono component is stamped with a
    /// fresh tick in scan order, and the selection bounds become nothing.
    pub fn deselect_all_strokes(&mut self)
        requires
            old(self).inv(),
            old(self).chrono_counter as int + old(self).num_strokes() <= u64::MAX as int,
        ensures
            final(self).inv(),
            deselect_rel(*old(self), *final(self)),
    {
        let n = self.selection_components.len();
        let mut i: usize = 0;
        while i < n
            invariant
                old(self).inv(),
                old(self).chrono_counter as int + old(self).num_strokes() <= u64::MAX as int,
                n == old(self).num_strokes(),
                0 <= i <= n,
                self.strokes@ == old(self).strokes@,
                self.render_components@ == old(self).render_components@,
                self.trash_components@ == old(self).trash_components@,
                self.selection_bounds == old(self).selection_bounds,
                self.selection_components@.len() == n,
                self.chrono_components@.len() == n,
                forall|j: int|
                    i <= j < n ==> #[trigger] self.selection_components@[j] == old(
                        self,
                    ).selection_components@[j],
                forall|j: int|
                    i <= j < n ==> #[trigger] self.chrono_components@[j] == old(
                        self,
                    ).chrono_components@[j],
                forall|j: int|
                    0 <= j < i ==> #[trigger] self.selection_components@[j] == (match old(
                        self,
                    ).selection_components@[j] {
                        Option::Some(_) => Some(SelectionComponent { selected: false }),
                        Option::None => None::<SelectionComponent>,
                    }),
                forall|j: int|
                    0 <= j < i && old(self).desel_stamped(j)
                        ==> #[trigger] self.chrono_components@[j] is Some
                        && self.chrono_components@[j]->Some_0.t as int == old(
                        self,
                    ).chrono_counter as int + old(self).num_desel_stamped_upto(j + 1),
                forall|j: int|
                    0 <= j < i && !old(self).desel_stamped(j)
                        ==> #[trigger] self.chrono_components@[j] == old(
                        self,
                    ).chrono_components@[j],
                self.chrono_counter as int == old(self).chrono_counter as int + old(
                    self,
                ).num_desel_stamped_upto(i as int),
            decreases n - i,
        {
            proof {
                old(self).lemma_desel_stamped_counts(i as int);
                old(self).lemma_desel_stamped_counts(i + 1);
            }
            let was: bool = match self.selection_components[i] {
                Some(c) => {
                    self.selection_components[i] = Some(SelectionComponent { selected: false });
                    c.selected
                },
                None => false,
            };
            if was && self.chrono_components[i].is_some() {
                self.chrono_counter = self.chrono_counter + 1;
                self.chrono_components[i] = Some(ChronoComponent { t: self.chrono_counter });
            }
            i = i + 1;
        }
        self.selection_bounds = None;
        proof {
            assert forall|j: int| 0 <= j < self.num_strokes() implies !self.is_selected(j) by {}
            lemma_sel_bounds_none(*self, self.num_strokes());
        }
    }

    /// Shift every selected stroke — bounds and hitbox — by `offset`,
    /// reposition its cached render image and display node by the same
    /// offset, and shift the selection bounds along; a no-op on the bounds
    /// if nothing is selected.
    pub fn translate_selection(&mut self, offset: Vec2)
        requires
            old(self).inv(),
            old(self).selection_translatable(offset),
        ensures
            final(self).inv(),
            translate_rel(*old(self), *final(self), offset),
    {
        let n = self.strokes.len();
        let mut i: usize = 0;
        while i < n
            invariant
                old(self).inv(),
                old(self).selection_translatable(offset),
                n == old(self).num_strokes(),
                0 <= i <= n,
                self.selection_components@ == old(self).selection_components@,
                self.chrono_components@ == old(self).chrono_components@,
                self.trash_components@ == old(self).trash_components@,
                self.chrono_counter == old(self).chrono_counter,
                self.selection_bounds == old(self).selection_bounds,
                self.strokes@.len() == n,
                self.render_components@.len() == n,
                forall|j: int|
                    i <= j < n ==> #[trigger] self.strokes@[j] == old(self).strokes@[j],
                forall|j: int|
                    i <= j < n ==> #[trigger] self.render_components@[j] == old(
                        self,
                    ).render_components@[j],
                forall|j: int|
                    0 <= j < i && !old(self).is_selected(j) ==> #[trigger] self.strokes@[j] == old(
                        self,
                    ).strokes@[j],
                forall|j: int|
                    0 <= j < i && !old(self).is_selected(j) ==> #[trigger] self.render_components@[j]
                        == old(self).render_components@[j],
                forall|j: int|
                    0 <= j < i && old(self).is_selected(j) ==> #[trigger] self.strokes@[j] is Some
                        && is_translated(
                        old(self).strokes@[j]->Some_0,
                        self.strokes@[j]->Some_0,
                        offset,
                    ) && self.strokes@[j]->Some_0.wf(),
                forall|j: int|
                    0 <= j < i && old(self).is_selected(j) ==> #[trigger] self.render_components@[j]
                        == (match old(self).render_components@[j] {
                        Option::Some(rc) => Some(
                            RenderComponent {
                                render: rc.render,
                                regenerate_flag: rc.regenerate_flag,
                                image_bounds: spec_translate(rc.image_bounds, offset),
                                node_bounds: spec_translate(rc.image_bounds, offset),
                            },
                        ),
                        Option::None => None::<RenderComponent>,
                    }),
            decreases n - i,
        {
            let sel = match self.selection_components[i] {
                Some(c) => c.selected,
                None => false,
            };
            if sel {
                proof {
                    assert(old(self).is_selected(i as int));
                    assert(self.strokes@[i as int] == old(self).strokes@[i as int]);
                    assert(old(self).strokes@[i as int] is Some);
                    assert(old(self).strokes@[i as int]->Some_0.wf());
                    assert(can_translate(old(self).stroke_bounds_at(i as int), offset));
                }
                let mut slot: Option<Stroke> = None;
                core::mem::swap(&mut slot, &mut self.strokes[i]);
                match &mut slot {
                    Some(st) => st.translate(offset),
                    None => {
                        proof {
                            assert(false);
                        }
                    },
                };
                self.strokes[i] = slot;
                match self.render_components[i] {
                    Some(rc) => {
                        let moved = rc.image_bounds.translate(offset);
                        self.render_components[i] = Some(
                            RenderComponent {
                                render: rc.render,
                                regenerate_flag: rc.regenerate_flag,
                                image_bounds: moved,
                                node_bounds: moved,
                            },
                        );
                    },
                    None => {},
                };
            }
            i = i + 1;
        }
        let moved_bounds = match &self.selection_bounds {
            Some(b) => {
                proof {
                    lemma_sel_bounds_translate(*old(self), *self, offset, n as int);
                }
                Some(b.translate(offset))
            },
            None => None,
        };
        self.selection_bounds = moved_bounds;
        proof {
            lemma_sel_bounds_translate(*old(self), *self, offset, n as int);
        }
    }

    /// Rescale the whole selection so its union bounds map onto
    /// `new_bounds`: every selected stroke keeps its relative offset and
    /// extent within the group under the per-axis affine map, its cached
    /// render placement follows, its re-rasterization is requested, and the
    /// selection bounds become exactly `new_bounds`. Without a selection, or
    /// when the selection bounds are degenerate on an axis (zero width or
    /// height leaves no ratio to rescale by), the call is rejected as a
    /// no-op.
    pub fn resize_selection(&mut self, new_bounds: Aabb)
        requires
            old(self).inv(),
            aabb_wf(new_bounds),
        ensures
            final(self).inv(),
            resize_rel(*old(self), *final(self), new_bounds),
    {
        let group = match &self.selection_bounds {
            Some(b) => *b,
            None => {
                return ;
            },
        };
        if group.min_x >= group.max_x || group.min_y >= group.max_y {
            return ;
        }
        proof {
            lemma_sel_bounds_contains(*old(self), old(self).num_strokes());
        }
        let n = self.strokes.len();
        let mut i: usize = 0;
        while i < n
            invariant
                old(self).inv(),
                aabb_wf(new_bounds),
                old(self).selection_bounds == Some(group),
                aabb_wf(group),
                group.min_x < group.max_x,
                group.min_y < group.max_y,
                forall|j: int|
                    0 <= j < n && old(self).is_selected(j) ==> spec_contains(
                        group,
                        #[trigger] old(self).stroke_bounds_at(j),
                    ),
                n == old(self).num_strokes(),
                0 <= i <= n,
                self.selection_components@ == old(self).selection_components@,
                self.chrono_components@ == old(self).chrono_components@,
                self.trash_components@ == old(self).trash_components@,
                self.chrono_counter == old(self).chrono_counter,
                self.selection_bounds == old(self).selection_bounds,
                self.strokes@.len() == n,
                self.render_components@.len() == n,
                forall|j: int|
                    i <= j < n ==> #[trigger] self.strokes@[j] == old(self).strokes@[j],
                forall|j: int|
                    i <= j < n ==> #[trigger] self.render_components@[j] == old(
                        self,
                    ).render_components@[j],
                forall|j: int|
                    0 <= j < i && !old(self).is_selected(j) ==> #[trigger] self.strokes@[j] == old(
                        self,
                    ).strokes@[j],
                forall|j: int|
                    0 <= j < i && !old(self).is_selected(j) ==> #[trigger] self.render_components@[j]
                        == old(self).render_components@[j],
                forall|j: int|
                    0 <= j < i && old(self).is_selected(j) ==> #[trigger] self.strokes@[j] is Some
                        && group_resized(
                        old(self).strokes@[j]->Some_0,
                        self.strokes@[j]->Some_0,
                        group,
                        new_bounds,
                    ) && self.strokes@[j]->Some_0.wf() && aabb_wf(
                        self.strokes@[j]->Some_0.bounds_spec(),
                    ),
                forall|j: int|
                    0 <= j < i && old(self).is_selected(j) ==> #[trigger] self.render_components@[j]
                        == (match old(self).render_components@[j] {
                        Option::Some(rc) => Some(
                            RenderComponent {
                                render: rc.render,
                                regenerate_flag: true,
                                image_bounds: self.strokes@[j]->Some_0.bounds_spec(),
                                node_bounds: self.strokes@[j]->Some_0.bounds_spec(),
                            },
                        ),
                        Option::None => None::<RenderComponent>,
                    }),
            decreases n - i,
        {
            let sel = match self.selection_components[i] {
                Some(c) => c.selected,
                None => false,
            };
            if sel {
                proof {
                    assert(old(self).is_selected(i as int));
                    assert(self.strokes@[i as int] == old(self).strokes@[i as int]);
                    assert(old(self).strokes@[i as int] is Some);
                    assert(old(self).strokes@[i as int]->Some_0.wf());
                    assert(spec_contains(group, old(self).stroke_bounds_at(i as int)));
                }
                let old_b = match &self.strokes[i] {
                    Some(st) => st.bounds(),
                    None => vstd::pervasive::unreached(),
                };
                let nb = map_aabb(&group, &new_bounds, &old_b);
                let mut slot: Option<Stroke> = None;
                core::mem::swap(&mut slot, &mut self.strokes[i]);
                match &mut slot {
                    Some(st) => st.resize(nb),
                    None => {
                        proof {
                            assert(false);
                        }
                    },
                };
                self.strokes[i] = slot;
                match self.render_components[i] {
                    Some(rc) => {
                        self.render_components[i] = Some(
                            RenderComponent {
                                render: rc.render,
                                regenerate_flag: true,
                                image_bounds: nb,
                                node_bounds: nb,
                            },
                        );
                    },
                    None => {},
                };
            }
            i = i + 1;
        }
        self.selection_bounds = Some(new_bounds);
        proof {
            lemma_sel_bounds_mapped(*old(self), *self, group, new_bounds, n as int);
            lemma_mapped_src_is_dst(
                group,
                new_bounds,
                self.sel_bounds_upto(n as int)->Some_0,
            );
        }
    }
}

/// How `deselect_all_strokes` relates the state after the call to the one
/// before it.
pub open spec fn deselect_rel(pre: StrokesState, post: StrokesState) -> bool {
    &&& post.strokes@ == pre.strokes@
    &&& post.render_components@ == pre.render_components@
    &&& post.trash_components@ == pre.trash_components@
    &&& post.selection_components@.len() == pre.selection_components@.len()
    &&& forall|i: int|
        0 <= i < pre.selection_components@.len() ==> #[trigger] post.selection_components@[i]
            == (match pre.selection_components@[i] {
            Option::Some(_) => Some(SelectionComponent { selected: false }),
            Option::None => None::<SelectionComponent>,
        })
    &&& post.chrono_components@.len() == pre.chrono_components@.len()
    &&& forall|i: int|
        0 <= i < pre.num_strokes() && pre.desel_stamped(i)
            ==> #[trigger] post.chrono_components@[i] is Some
            && post.chrono_components@[i]->Some_0.t as int == pre.chrono_counter as int
            + pre.num_desel_stamped_upto(i + 1)
    &&& forall|i: int|
        0 <= i < pre.chrono_components@.len() && !pre.desel_stamped(i)
            ==> #[trigger] post.chrono_components@[i] == pre.chrono_components@[i]
    &&& post.chrono_counter as int == pre.chrono_counter as int + pre.num_desel_stamped_upto(
        pre.num_strokes(),
    )
    &&& post.selection_bounds is None
}

/// How `translate_selection` relates the state after the call to the one
/// before it.
pub open spec fn translate_rel(pre: StrokesState, post: StrokesState, v: Vec2) -> bool {
    &&& post.strokes@.len() == pre.strokes@.len()
    &&& post.render_components@.len() == pre.render_components@.len()
    &&& post.selection_components@ == pre.selection_components@
    &&& post.chrono_components@ == pre.chrono_components@
    &&& post.trash_components@ == pre.trash_components@
    &&& post.chrono_counter == pre.chrono_counter
    &&& forall|i: int|
        0 <= i < pre.num_strokes() && !pre.is_selected(i) ==> #[trigger] post.strokes@[i]
            == pre.strokes@[i] && post.render_components@[i] == pre.render_components@[i]
    &&& forall|i: int|
        0 <= i < pre.num_strokes() && pre.is_selected(i) ==> #[trigger] post.strokes@[i] is Some
            && is_translated(pre.strokes@[i]->Some_0, post.strokes@[i]->Some_0, v)
    &&& forall|i: int|
        0 <= i < pre.num_strokes() && pre.is_selected(i) ==> #[trigger] post.render_components@[i]
            == (match pre.render_components@[i] {
            Option::Some(rc) => Some(
                RenderComponent {
                    render: rc.render,
                    regenerate_flag: rc.regenerate_flag,
                    image_bounds: spec_translate(rc.image_bounds, v),
                    node_bounds: spec_translate(rc.image_bounds, v),
                },
            ),
            Option::None => None::<RenderComponent>,
        })
    &&& post.selection_bounds == (match pre.selection_bounds {
        Option::Some(b) => Some(spec_translate(b, v)),
        Option::None => None::<Aabb>,
    })
}

/// `out` is `orig` carried by the group affine map from `src` onto `dst`:
/// its bounds are mapped by that map, and its hitbox follows its own bounds.
pub open spec fn group_resized(orig: Stroke, out: Stroke, src: Aabb, dst: Aabb) -> bool {
    &&& same_kind(orig, out)
    &&& is_mapped_aabb(src, dst, orig.bounds_spec(), out.bounds_spec())
    &&& is_resized(orig, out, out.bounds_spec())
}

/// How `resize_selection` relates the state after the call to the one
/// before it: a no-op without a selection or on degenerate group bounds;
/// otherwise every selected stroke is carried by the affine map from the
/// old group bounds onto `nb`, render placements follow with the
/// regenerate flag raised, and the selection bounds become exactly `nb`.
pub open spec fn resize_rel(pre: StrokesState, post: StrokesState, nb: Aabb) -> bool {
    if pre.selection_bounds is None || pre.selection_bounds->Some_0.min_x
        >= pre.selection_bounds->Some_0.max_x || pre.selection_bounds->Some_0.min_y
        >= pre.selection_bounds->Some_0.max_y {
        post == pre
    } else {
        let group = pre.selection_bounds->Some_0;
        &&& post.strokes@.len() == pre.strokes@.len()
        &&& post.render_components@.len() == pre.render_components@.len()
        &&& post.selection_components@ == pre.selection_components@
        &&& post.chrono_components@ == pre.chrono_components@
        &&& post.trash_components@ == pre.trash_components@
        &&& post.chrono_counter == pre.chrono_counter
        &&& forall|i: int|
            0 <= i < pre.num_strokes() && !pre.is_selected(i) ==> #[trigger] post.strokes@[i]
                == pre.strokes@[i] && post.render_components@[i] == pre.render_components@[i]
        &&& forall|i: int|
            0 <= i < pre.num_strokes() && pre.is_selected(i) ==> #[trigger] post.strokes@[i]
                is Some && group_resized(
                pre.strokes@[i]->Some_0,
                post.strokes@[i]->Some_0,
                group,
                nb,
            )
        &&& forall|i: int|
            0 <= i < pre.num_strokes() && pre.is_selected(i)
                ==> #[trigger] post.render_components@[i] == (match pre.render_components@[i] {
                Option::Some(rc) => Some(
                    RenderComponent {
                        render: rc.render,
                        regenerate_flag: true,
                        image_bounds: post.strokes@[i]->Some_0.bounds_spec(),
                        node_bounds: post.strokes@[i]->Some_0.bounds_spec(),
                    },
                ),
                Option::None => None::<RenderComponent>,
            })
        &&& post.selection_bounds == Some(nb)
    }
}

/// Translating every selected stroke shifts the selection union by the
/// same offset.
pub proof fn lemma_sel_bounds_translate(pre: StrokesState, post: StrokesState, v: Vec2, n: int)
    requires
        pre.wf_core(),
        pre.selection_translatable(v),
        n <= pre.num_strokes(),
        post.strokes@.len() == pre.strokes@.len(),
        post.selection_components@ == pre.selection_components@,
        forall|i: int|
            0 <= i < n && !pre.is_selected(i) ==> #[trigger] post.strokes@[i] == pre.strokes@[i],
        forall|i: int|
            0 <= i < n && pre.is_selected(i) ==> #[trigger] post.strokes@[i] is Some
                && is_translated(pre.strokes@[i]->Some_0, post.strokes@[i]->Some_0, v),
    ensures
        match pre.sel_bounds_upto(n) {
            Option::None => post.sel_bounds_upto(n) is None,
            Option::Some(b) => can_translate(b, v) && post.sel_bounds_upto(n) == Some(
                spec_translate(b, v),
            ),
        },
    decreases n,
{
    if n > 0 {
        lemma_sel_bounds_translate(pre, post, v, n - 1);
        assert(post.is_selected(n - 1) == pre.is_selected(n - 1));
        if pre.is_selected(n - 1) {
            match pre.sel_bounds_upto(n - 1) {
                Option::None => {},
                Option::Some(b) => {
                    lemma_merge_translate(b, pre.stroke_bounds_at(n - 1), v);
                },
            }
        }
    }
}

/// Mapping every selected stroke's bounds by the group affine map carries
/// the selection union by the same map.
pub proof fn lemma_sel_bounds_mapped(
    pre: StrokesState,
    post: StrokesState,
    src: Aabb,
    dst: Aabb,
    n: int,
)
    requires
        pre.wf_core(),
        aabb_wf(src),
        aabb_wf(dst),
        n <= pre.num_strokes(),
        post.strokes@.len() == pre.strokes@.len(),
        post.selection_components@ == pre.selection_components@,
        forall|i: int|
            0 <= i < n && !pre.is_selected(i) ==> #[trigger] post.strokes@[i] == pre.strokes@[i],
        forall|i: int|
            0 <= i < n && pre.is_selected(i) ==> #[trigger] post.strokes@[i] is Some
                && is_mapped_aabb(
                src,
                dst,
                pre.strokes@[i]->Some_0.bounds_spec(),
                post.strokes@[i]->Some_0.bounds_spec(),
            ),
    ensures
        match pre.sel_bounds_upto(n) {
            Option::None => post.sel_bounds_upto(n) is None,
            Option::Some(b) => post.sel_bounds_upto(n) is Some && is_mapped_aabb(
                src,
                dst,
                b,
                post.sel_bounds_upto(n)->Some_0,
            ),
        },
    decreases n,
{
    if n > 0 {
        lemma_sel_bounds_mapped(pre, post, src, dst, n - 1);
        assert(post.is_selected(n - 1) == pre.is_selected(n - 1));
        if pre.is_selected(n - 1) {
            match pre.sel_bounds_upto(n - 1) {
                Option::None => {},
                Option::Some(b) => {
                    lemma_mapped_merge(
                        src,
                        dst,
                        b,
                        pre.stroke_bounds_at(n - 1),
                        post.sel_bounds_upto(n - 1)->Some_0,
                        post.stroke_bounds_at(n - 1),
                    );
                },
            }
        }
    }
}

impl StrokesState {
    /// The stroke is hidden from hit-testing: marked non-renderable or
    /// moved to the trash.
    pub open spec fn hidden(self, i: int) -> bool {
        ||| (self.render_components@[i] is Some && !self.render_components@[i]->Some_0.render)
        ||| (self.trash_components@[i] is Some && self.trash_components@[i]->Some_0.trashed)
    }

    /// The stroke takes part in a selector pass: live, not hidden, and —
    /// when a viewport is supplied — intersecting it.
    pub open spec fn sel_eligible(self, i: int, vp: Option<Aabb>) -> bool {
        &&& 0 <= i < self.num_strokes()
        &&& self.strokes@[i] is Some
        &&& !self.hidden(i)
        &&& (vp is None || spec_intersects(vp->Some_0, self.stroke_bounds_at(i)))
    }

    /// The selector pass writes this stroke's selection flag.
    pub open spec fn sel_affected(self, i: int, vp: Option<Aabb>) -> bool {
        self.sel_eligible(i, vp) && self.selection_components@[i] is Some
    }

    /// The selector pass newly selects this stroke and stamps its chrono
    /// component.
    pub open spec fn sel_stamped(self, sb: Aabb, vp: Option<Aabb>, i: int) -> bool {
        &&& self.sel_affected(i, vp)
        &&& spec_hit(sb, self.strokes@[i]->Some_0)
        &&& !self.is_selected(i)
        &&& self.chrono_components@[i] is Some
    }

    /// Number of such strokes among the first `n` slots.
    pub open spec fn num_sel_stamped_upto(self, sb: Aabb, vp: Option<Aabb>, n: int) -> int
        decreases n,
    {
        if n <= 0 {
            0
        } else {
            self.num_sel_stamped_upto(sb, vp, n - 1) + if self.sel_stamped(sb, vp, n - 1) {
                1int
            } else {
                0int
            }
        }
    }

    pub proof fn lemma_sel_stamped_counts(self, sb: Aabb, vp: Option<Aabb>, n: int)
        ensures
            0 <= self.num_sel_stamped_upto(sb, vp, n),
            n >= 0 ==> self.num_sel_stamped_upto(sb, vp, n) <= n,
        decreases n,
    {
        if n > 0 {
            self.lemma_sel_stamped_counts(sb, vp, n - 1);
        }
    }

    /// Raise the regenerate flag of every selected stroke's render
    /// component, requesting its re-rasterization.
    fn request_selection_rerender(&mut self)
        requires
            old(self).inv(),
        ensures
            final(self).inv(),
            final(self).strokes@ == old(self).strokes@,
            final(self).selection_components@ == old(self).selection_components@,
            final(self).chrono_components@ == old(self).chrono_components@,
            final(self).trash_components@ == old(self).trash_components@,
            final(self).chrono_counter == old(self).chrono_counter,
            final(self).selection_bounds == old(self).selection_bounds,
            final(self).render_components@.len() == old(self).render_components@.len(),
            forall|i: int|
                0 <= i < old(self).num_strokes() && old(self).is_selected(i)
                    ==> #[trigger] final(self).render_components@[i] == (match old(
                    self,
                ).render_components@[i] {
                    Option::Some(rc) => Some(
                        RenderComponent {
                            render: rc.render,
                            regenerate_flag: true,
                            image_bounds: rc.image_bounds,
                            node_bounds: rc.node_bounds,
                        },
                    ),
                    Option::None => None::<RenderComponent>,
                }),
            forall|i: int|
                0 <= i < old(self).num_strokes() && !old(self).is_selected(i)
                    ==> #[trigger] final(self).render_components@[i] == old(
                    self,
                ).render_components@[i],
    {
        let n = self.strokes.len();
        let mut i: usize = 0;
        while i < n
            invariant
                old(self).inv(),
                n == old(self).num_strokes(),
                0 <= i <= n,
                self.strokes@ == old(self).strokes@,
                self.selection_components@ == old(self).selection_components@,
                self.chrono_components@ == old(self).chrono_components@,
                self.trash_components@ == old(self).trash_components@,
                self.chrono_counter == old(self).chrono_counter,
                self.selection_bounds == old(self).selection_bounds,
                self.render_components@.len() == n,
                forall|j: int|
                    i <= j < n ==> #[trigger] self.render_components@[j] == old(
                        self,
                    ).render_components@[j],
                forall|j: int|
                    0 <= j < i && old(self).is_selected(j)
                        ==> #[trigger] self.render_components@[j] == (match old(
                        self,
                    ).render_components@[j] {
                        Option::Some(rc) => Some(
                            RenderComponent {
                                render: rc.render,
                                regenerate_flag: true,
                                image_bounds: rc.image_bounds,
                                node_bounds: rc.node_bounds,
                            },
                        ),
                        Option::None => None::<RenderComponent>,
                    }),
                forall|j: int|
                    0 <= j < i && !old(self).is_selected(j)
                        ==> #[trigger] self.render_components@[j] == old(
                        self,
                    ).render_components@[j],
            decreases n - i,
        {
            let sel = match self.selection_components[i] {
                Some(c) => c.selected,
                None => false,
            };
            if sel {
                match self.render_components[i] {
                    Some(rc) => {
                        self.render_components[i] = Some(
                            RenderComponent {
                                render: rc.render,
                                regenerate_flag: true,
                                image_bounds: rc.image_bounds,
                                node_bounds: rc.node_bounds,
                            },
                        );
                    },
                    None => {},
                };
            }
            i = i + 1;
        }
        proof {
            lemma_sel_bounds_agree(*old(self), *self, n as int);
        }
    }

    /// Evaluate every visible stroke against the selector's rectangle and
    /// rewrite the selection accordingly: full containment selects, partial
    /// overlap selects a freehand stroke only when every hitbox sub-box is
    /// covered, anything else deselects. Strokes that are trashed, marked
    /// non-renderable, or outside the supplied viewport keep their previous
    /// flag. Each stroke newly entering the selection advances and takes a
    /// chrono stamp; strokes falling out of the selection take none, since a
    /// selector drag is not an explicit touch. The selection bounds are
    /// recomputed, and when the selected count changed the selection's
    /// re-rasterization is requested. Returns whether the selected count
    /// changed. A selector without active bounds leaves the state untouched.
    pub fn update_selection_for_selector(
        &mut self,
        selector: &Selector,
        viewport: Option<Aabb>,
    ) -> (r: bool)
        requires
            old(self).inv(),
            old(self).chrono_counter as int + old(self).num_strokes() <= u64::MAX as int,
        ensures
            final(self).inv(),
            selector_rel(*old(self), *final(self), selector.bounds, viewport, r),
    {
        let sb = match &selector.bounds {
            Some(b) => *b,
            None => {
                return false;
            },
        };
        let prev = self.selection_len();
        let n = self.strokes.len();
        let mut i: usize = 0;
        while i < n
            invariant
                old(self).inv(),
                old(self).chrono_counter as int + old(self).num_strokes() <= u64::MAX as int,
                n == old(self).num_strokes(),
                0 <= i <= n,
                self.strokes@ == old(self).strokes@,
                self.render_components@ == old(self).render_components@,
                self.trash_components@ == old(self).trash_components@,
                self.selection_bounds == old(self).selection_bounds,
                self.selection_components@.len() == n,
                self.chrono_components@.len() == n,
                forall|j: int|
                    i <= j < n ==> #[trigger] self.selection_components@[j] == old(
                        self,
                    ).selection_components@[j],
                forall|j: int|
                    i <= j < n ==> #[trigger] self.chrono_components@[j] == old(
                        self,
                    ).chrono_components@[j],
                forall|j: int|
                    0 <= j < i && old(self).sel_affected(j, viewport)
                        ==> #[trigger] self.selection_components@[j] == Some(
                        SelectionComponent {
                            selected: spec_hit(sb, old(self).strokes@[j]->Some_0),
                        },
                    ),
                forall|j: int|
                    0 <= j < i && !old(self).sel_affected(j, viewport)
                        ==> #[trigger] self.selection_components@[j] == old(
                        self,
                    ).selection_components@[j],
                forall|j: int|
                    0 <= j < i && old(self).sel_stamped(sb, viewport, j)
                        ==> #[trigger] self.chrono_components@[j] is Some
                        && self.chrono_components@[j]->Some_0.t as int == old(
                        self,
                    ).chrono_counter as int + old(self).num_sel_stamped_upto(sb, viewport, j + 1),
                forall|j: int|
                    0 <= j < i && !old(self).sel_stamped(sb, viewport, j)
                        ==> #[trigger] self.chrono_components@[j] == old(
                        self,
                    ).chrono_components@[j],
                self.chrono_counter as int == old(self).chrono_counter as int + old(
                    self,
                ).num_sel_stamped_upto(sb, viewport, i as int),
            decreases n - i,
        {
            proof {
                old(self).lemma_sel_stamped_counts(sb, viewport, i as int);
                old(self).lemma_sel_stamped_counts(sb, viewport, i + 1);
            }
            let hidden_now = {
                let h1 = match self.render_components[i] {
                    Some(rc) => !rc.render,
                    None => false,
                };
                let h2 = match self.trash_components[i] {
                    Some(tc) => tc.trashed,
                    None => false,
                };
                h1 || h2
            };
            if !hidden_now {
                let in_vp = match &self.strokes[i] {
                    Some(st) => {
                        match &viewport {
                            Some(vp) => vp.intersects(&st.bounds()),
                            None => true,
                        }
                    },
                    None => false,
                };
                if in_vp && self.selection_components[i].is_some() {
                    let was = match self.selection_components[i] {
                        Some(c) => c.selected,
                        None => vstd::pervasive::unreached(),
                    };
                    let hit = match &self.strokes[i] {
                        Some(st) => st.hit_by_selector(&sb),
                        None => vstd::pervasive::unreached(),
                    };
                    self.selection_components[i] = Some(SelectionComponent { selected: hit });
                    if hit && !was && self.chrono_components[i].is_some() {
                        self.chrono_counter = self.chrono_counter + 1;
                        self.chrono_components[i] = Some(
                            ChronoComponent { t: self.chrono_counter },
                        );
                    }
                }
            }
            i = i + 1;
        }
        proof {
            assert forall|j: int|
                0 <= j < n && self.selection_components@[j] is Some implies old(
                self,
            ).selection_components@[j] is Some by {
                if old(self).sel_affected(j, viewport) {
                } else {
                    assert(self.selection_components@[j] == old(self).selection_components@[j]);
                }
            }
        }
        let ghost after_scan = *self;
        self.update_selection_bounds();
        proof {
            lemma_sel_bounds_agree(after_scan, *self, n as int);
        }
        let now = self.selection_len();
        let ghost after_bounds = *self;
        if now != prev {
            self.request_selection_rerender();
            proof {
                lemma_sel_bounds_agree(after_bounds, *self, n as int);
            }
            true
        } else {
            false
        }
    }
}

impl StrokesState {
    /// Twice the per-axis duplication offset: the documented behavior
    /// applies the offset once per clone and once more as a group
    /// translate, so a duplicate lands displaced by double the constant.
    pub open spec fn dup_displacement() -> Vec2 {
        Vec2 {
            x: (2 * SelectionComponent::SELECTION_DUPLICATION_OFFSET_X) as i64,
            y: (2 * SelectionComponent::SELECTION_DUPLICATION_OFFSET_Y) as i64,
        }
    }

    /// Duplicate the current selection: clone every selected stroke into a
    /// new arena entry, move the selection onto the clones, and displace
    /// them by [`StrokesState::dup_displacement`]. The originals keep their
    /// places and are deselected.
    pub fn duplicate_selection(&mut self)
        requires
            old(self).inv(),
            old(self).chrono_counter as int + 2 * old(self).num_strokes() <= u64::MAX as int,
            old(self).num_strokes() + old(self).num_selected() <= usize::MAX,
            forall|i: int|
                0 <= i < old(self).num_strokes() && old(self).is_selected(i) ==> can_translate(
                    #[trigger] old(self).stroke_bounds_at(i),
                    Self::dup_displacement(),
                ),
        ensures
            final(self).inv(),
            duplicate_rel(*old(self), *final(self)),
    {
        let n = self.strokes.len();
        let keys = self.keys_selection();
        let k = keys.len();
        proof {
            old(self).lemma_sel_keys_counts(n as int);
        }
        self.deselect_all_strokes();
        proof {
            old(self).lemma_desel_stamped_counts(n as int);
        }
        let mut m: usize = 0;
        while m < k
            invariant
                old(self).inv(),
                old(self).chrono_counter as int + 2 * old(self).num_strokes() <= u64::MAX as int,
                n == old(self).num_strokes(),
                k as int == old(self).num_selected(),
                n + k <= usize::MAX,
                keys@.len() == k,
                forall|p: int|
                    0 <= p < k ==> #[trigger] keys@[p] as int == old(self).sel_keys_upto(n as int)[p],
                forall|p: int|
                    0 <= p < k ==> 0 <= #[trigger] old(self).sel_keys_upto(n as int)[p] < n && old(
                        self,
                    ).is_selected(old(self).sel_keys_upto(n as int)[p]),
                forall|i: int|
                    0 <= i < n && old(self).is_selected(i) ==> can_translate(
                        #[trigger] old(self).stroke_bounds_at(i),
                        Self::dup_displacement(),
                    ),
                0 <= m <= k,
                self.inv(),
                self.num_strokes() == n + m,
                self.chrono_counter as int <= old(self).chrono_counter as int + n + m,
                self.chrono_counter >= old(self).chrono_counter,
                forall|j: int| 0 <= j < n ==> #[trigger] self.strokes@[j] == old(self).strokes@[j],
                forall|j: int|
                    0 <= j < n ==> #[trigger] self.selection_components@[j] == (match old(
                        self,
                    ).selection_components@[j] {
                        Option::Some(_) => Some(SelectionComponent { selected: false }),
                        Option::None => None::<SelectionComponent>,
                    }),
                forall|j: int|
                    0 <= j < n ==> #[trigger] self.render_components@[j] == old(
                        self,
                    ).render_components@[j],
                forall|j: int|
                    0 <= j < n ==> #[trigger] self.trash_components@[j] == old(
                        self,
                    ).trash_components@[j],
                forall|j: int|
                    n <= j < n + m ==> #[trigger] self.strokes@[j] is Some && stroke_like(
                        old(self).strokes@[old(self).sel_keys_upto(n as int)[j - n]]->Some_0,
                        self.strokes@[j]->Some_0,
                    ),
                forall|j: int|
                    n <= j < n + m ==> #[trigger] self.selection_components@[j] == Some(
                        SelectionComponent { selected: true },
                    ),
            decreases k - m,
        {
            let key = keys[m];
            proof {
                old(self).lemma_sel_keys_counts(n as int);
                assert(old(self).is_selected(key as int));
                assert(old(self).strokes@[key as int] is Some);
                assert(old(self).strokes@[key as int]->Some_0.wf());
                assert(self.strokes@[key as int] == old(self).strokes@[key as int]);
            }
            let dup = match &self.strokes[key] {
                Some(st) => st.duplicate(),
                None => vstd::pervasive::unreached(),
            };
            let new_key = self.insert_stroke(dup);
            self.set_selected(new_key, true);
            proof {
                assert(self.selection_components@[new_key as int] == Some(
                    SelectionComponent { selected: true },
                ));
            }
            m = m + 1;
        }
        proof {
            assert forall|j: int|
                0 <= j < self.num_strokes() && self.is_selected(j) implies can_translate(
                #[trigger] self.stroke_bounds_at(j),
                Self::dup_displacement(),
            ) by {
                if j < n {
                    assert(!self.is_selected(j));
                } else {
                    let p = j - n;
                    let orig: int = old(self).sel_keys_upto(n as int)[p];
                    assert(old(self).is_selected(orig));
                    assert(can_translate(
                        old(self).stroke_bounds_at(orig),
                        Self::dup_displacement(),
                    ));
                    assert(stroke_like(
                        old(self).strokes@[orig]->Some_0,
                        self.strokes@[j]->Some_0,
                    ));
                    assert(self.stroke_bounds_at(j) == old(self).stroke_bounds_at(orig));
                }
            }
        }
        let ghost before_move = *self;
        self.translate_selection(
            Vec2 {
                x: 2 * SelectionComponent::SELECTION_DUPLICATION_OFFSET_X,
                y: 2 * SelectionComponent::SELECTION_DUPLICATION_OFFSET_Y,
            },
        );
        proof {
            assert forall|j: int| 0 <= j < n implies !self.is_selected(j) by {
                assert(self.selection_components@[j] == before_move.selection_components@[j]);
            }
            assert forall|j: int|
                0 <= j < n implies #[trigger] self.selection_components@[j] == (match old(
                self,
            ).selection_components@[j] {
                Option::Some(_) => Some(SelectionComponent { selected: false }),
                Option::None => None::<SelectionComponent>,
            }) by {
                assert(self.selection_components@[j] == before_move.selection_components@[j]);
            }
            assert forall|j: int| 0 <= j < n implies #[trigger] self.strokes@[j] == old(
                self,
            ).strokes@[j] by {
                assert(!before_move.is_selected(j));
                assert(self.strokes@[j] == before_move.strokes@[j]);
            }
            assert forall|j: int| 0 <= j < n implies #[trigger] self.trash_components@[j] == old(
                self,
            ).trash_components@[j] by {
                assert(self.trash_components@[j] == before_move.trash_components@[j]);
            }
            assert forall|j: int| n <= j < n + k implies #[trigger] self.is_selected(j) by {
                assert(self.selection_components@[j] == before_move.selection_components@[j]);
            }
            lemma_count_none(*self, n as int);
            lemma_count_split(*self, n as int, k as int);
            assert forall|j: int| n <= j < n + k implies #[trigger] self.strokes@[j] is Some
                && is_translated(
                old(self).strokes@[old(self).sel_keys_upto(n as int)[j - n]]->Some_0,
                self.strokes@[j]->Some_0,
                StrokesState::dup_displacement(),
            ) by {
                let p = j - n;
                let orig: int = old(self).sel_keys_upto(n as int)[p];
                assert(before_move.is_selected(j));
                assert(is_translated(
                    before_move.strokes@[j]->Some_0,
                    self.strokes@[j]->Some_0,
                    StrokesState::dup_displacement(),
                ));
                assert(stroke_like(
                    old(self).strokes@[orig]->Some_0,
                    before_move.strokes@[j]->Some_0,
                ));
            }
        }
    }
}

/// Among the first `n` slots none is selected, so none is counted.
pub proof fn lemma_count_none(s: StrokesState, n: int)
    requires
        forall|j: int| 0 <= j < n ==> !s.is_selected(j),
    ensures
        s.num_selected_upto(n) == 0,
    decreases n,
{
    if n > 0 {
        lemma_count_none(s, n - 1);
    }
}

/// With nothing selected among the first `n` slots and everything selected
/// among the following `m`, the count over both is `m`.
pub proof fn lemma_count_split(s: StrokesState, n: int, m: int)
    requires
        0 <= n,
        0 <= m,
        s.num_selected_upto(n) == 0,
        forall|j: int| n <= j < n + m ==> s.is_selected(j),
    ensures
        s.num_selected_upto(n + m) == m,
    decreases m,
{
    if m > 0 {
        lemma_count_split(s, n, m - 1);
    }
}

/// How `duplicate_selection` relates the state after the call to the one
/// before it: the originals stay in place and leave the selection; one
/// clone per previously selected stroke (in ascending key order) is
/// appended, selected, and displaced by the duplication displacement.
pub open spec fn duplicate_rel(pre: StrokesState, post: StrokesState) -> bool {
    let n = pre.num_strokes();
    let k = pre.num_selected();
    &&& post.num_strokes() == n + k
    &&& forall|j: int| 0 <= j < n ==> #[trigger] post.strokes@[j] == pre.strokes@[j]
    &&& forall|j: int|
        0 <= j < n ==> #[trigger] post.selection_components@[j] == (match pre.selection_components@[j] {
            Option::Some(_) => Some(SelectionComponent { selected: false }),
            Option::None => None::<SelectionComponent>,
        })
    &&& forall|j: int|
        0 <= j < n ==> #[trigger] post.trash_components@[j] == pre.trash_components@[j]
    &&& forall|j: int|
        n <= j < n + k ==> #[trigger] post.strokes@[j] is Some && is_translated(
            pre.strokes@[pre.sel_keys_upto(n)[j - n]]->Some_0,
            post.strokes@[j]->Some_0,
            StrokesState::dup_displacement(),
        )
    &&& forall|j: int| n <= j < n + k ==> #[trigger] post.is_selected(j)
    &&& post.num_selected() == k
    &&& post.chrono_counter >= pre.chrono_counter
}

/// How `update_selection_for_selector` relates the state after the call to
/// the one before it, for the selector bounds `sb` and viewport `vp`; `r`
/// reports whether the selected count changed.
pub open spec fn selector_rel(
    pre: StrokesState,
    post: StrokesState,
    sb: Option<Aabb>,
    vp: Option<Aabb>,
    r: bool,
) -> bool {
    match sb {
        Option::None => post == pre && !r,
        Option::Some(sb) => {
            &&& post.strokes@ == pre.strokes@
            &&& post.trash_components@ == pre.trash_components@
            &&& post.selection_components@.len() == pre.selection_components@.len()
            &&& forall|i: int|
                0 <= i < pre.num_strokes() && pre.sel_affected(i, vp)
                    ==> #[trigger] post.selection_components@[i] == Some(
                    SelectionComponent { selected: spec_hit(sb, pre.strokes@[i]->Some_0) },
                )
            &&& forall|i: int|
                0 <= i < pre.num_strokes() && !pre.sel_affected(i, vp)
                    ==> #[trigger] post.selection_components@[i] == pre.selection_components@[i]
            &&& post.chrono_components@.len() == pre.chrono_components@.len()
            &&& forall|i: int|
                0 <= i < pre.num_strokes() && pre.sel_stamped(sb, vp, i)
                    ==> #[trigger] post.chrono_components@[i] is Some
                    && post.chrono_components@[i]->Some_0.t as int == pre.chrono_counter as int
                    + pre.num_sel_stamped_upto(sb, vp, i + 1)
            &&& forall|i: int|
                0 <= i < pre.num_strokes() && !pre.sel_stamped(sb, vp, i)
                    ==> #[trigger] post.chrono_components@[i] == pre.chrono_components@[i]
            &&& post.chrono_counter as int == pre.chrono_counter as int + pre.num_sel_stamped_upto(
                sb,
                vp,
                pre.num_strokes(),
            )
            &&& r == (post.num_selected() != pre.num_selected())
            &&& post.render_components@.len() == pre.render_components@.len()
            &&& forall|i: int|
                0 <= i < pre.num_strokes() && !(r && post.is_selected(i))
                    ==> #[trigger] post.render_components@[i] == pre.render_components@[i]
            &&& forall|i: int|
                0 <= i < pre.num_strokes() && r && post.is_selected(i)
                    ==> #[trigger] post.render_components@[i] == (match pre.render_components@[i] {
                    Option::Some(rc) => Some(
                        RenderComponent {
                            render: rc.render,
                            regenerate_flag: true,
                            image_bounds: rc.image_bounds,
                            node_bounds: rc.node_bounds,
                        },
                    ),
                    Option::None => None::<RenderComponent>,
                })
        },
    }
}

} // verus!
