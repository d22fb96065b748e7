//! Web views and the tab collection.
//!
//! A [`WebView`] is the whole state of one page: its content (HTML and
//! CSS), its last rendered frame and layout state, and two dirty flags
//! ([`WebView::needs_repaint`], [`WebView::close_scheduled`]): event
//! handling only marks them, and the event loop's single flush point does
//! the rendering or removal.
//!
//! A [`WebViewCollection`] holds the tabs and the index of the active one;
//! every operation keeps the active index on a tab while there are tabs,
//! and a change of the active tab marks it for repaint.
//!
//! The layout scale is a float in the window layer; here it is held as the
//! bit pattern of that `f32`, which the collection only stores and compares.
use vstd::prelude::*;
use crate::browser::{
    new_tab_content, new_tab_content_model, url_placeholder_page, url_placeholder_page_model,
};
use crate::chrome::{AddressBar, AddressModel, ChromeEffect, EffectModel, ShortcutAction};
use crate::navigation::{decimal, push_decimal};
use crate::navigation::{
    KindModel, NavigationKind, NavigationOutcome, OutcomeModel, classify, classify_url, error_page,
    error_page_model, extract_inline_style, styles_from,
};

verus! {

/// Mathematical model of a web view.
pub struct WebViewModel {
    pub html: Seq<char>,
    pub css: Seq<char>,
    pub title: Seq<char>,
    pub navigation_epoch: u64,
    pub needs_repaint: bool,
    pub close_scheduled: bool,
    pub pixels: Seq<u8>,
    pub width: u32,
    pub height: u32,
    pub logical_width: u32,
    pub logical_height: u32,
    pub scale_bits: u32,
}

/// The whole state of one page (one tab).
///
/// `pixels`, `width` and `height` are the last rendered RGBA frame;
/// `logical_width`, `logical_height` and the scale are the layout state it
/// was rendered for (compared to decide whether to render again).
#[derive(Clone, Debug)]
pub struct WebView {
    /// Page HTML.
    pub html: String,
    /// Page CSS.
    pub css: String,
    /// Tab title (the URL once a navigation is submitted, then the final
    /// URL or file name once it arrives).
    pub title: String,
    /// Navigation generation: incremented for each navigation submitted
    /// from the address bar; an arriving result is applied only when its
    /// generation matches.
    pub navigation_epoch: u64,
    needs_repaint: bool,
    close_scheduled: bool,
    pixels: Vec<u8>,
    width: u32,
    height: u32,
    logical_width: u32,
    logical_height: u32,
    scale_bits: u32,
}

/// The bit pattern of the `f32` scale 1.0.
pub const SCALE_ONE_BITS: u32 = 0x3f80_0000u32;

impl View for WebView {
    type V = WebViewModel;

    closed spec fn view(&self) -> WebViewModel {
        WebViewModel {
            html: self.html@,
            css: self.css@,
            title: self.title@,
            navigation_epoch: self.navigation_epoch,
            needs_repaint: self.needs_repaint,
            close_scheduled: self.close_scheduled,
            pixels: self.pixels@,
            width: self.width,
            height: self.height,
            logical_width: self.logical_width,
            logical_height: self.logical_height,
            scale_bits: self.scale_bits,
        }
    }
}

/// The bit pattern of an `f32` without its sign bit.
pub open spec fn f32_magnitude(bits: u32) -> u32 {
    bits % 0x8000_0000u32
}

/// The bit pattern of an `f32` NaN: all exponent bits set and a non-zero
/// fraction.
pub open spec fn f32_bits_nan(bits: u32) -> bool {
    f32_magnitude(bits) > 0x7f80_0000u32
}

/// `==` on the `f32` values with these bit patterns (IEEE 754): a NaN
/// equals nothing, the two zeros are equal, and other values are equal when
/// their bits are.
pub open spec fn f32_bits_eq(a: u32, b: u32) -> bool {
    !f32_bits_nan(a) && !f32_bits_nan(b) && (a == b || (f32_magnitude(a) == 0 && f32_magnitude(b)
        == 0))
}

fn f32_bits_eq_exec(a: u32, b: u32) -> (r: bool)
    ensures
        r == f32_bits_eq(a, b),
{
    let ma = a % 0x8000_0000u32;
    let mb = b % 0x8000_0000u32;
    ma <= 0x7f80_0000u32 && mb <= 0x7f80_0000u32 && (a == b || (ma == 0 && mb == 0))
}

/// A web view that has not been rendered yet.
pub open spec fn fresh_view(html: Seq<char>, css: Seq<char>) -> WebViewModel {
    WebViewModel {
        html,
        css,
        title: "新标签页"@,
        navigation_epoch: 0,
        needs_repaint: true,
        close_scheduled: false,
        pixels: Seq::empty(),
        width: 0,
        height: 0,
        logical_width: 0,
        logical_height: 0,
        scale_bits: SCALE_ONE_BITS,
    }
}

/// The view with its repaint flag set.
pub open spec fn marked(v: WebViewModel) -> WebViewModel {
    WebViewModel { needs_repaint: true, ..v }
}

impl WebView {
    proof fn lemma_fields(&self)
        ensures
            self@.html == self.html@,
            self@.css == self.css@,
            self@.title == self.title@,
            self@.navigation_epoch == self.navigation_epoch,
    {
    }

    /// A web view with the given content, not rendered yet (its repaint flag
    /// is set, so the first flush renders it), with a zero layout state.
    pub fn new(html: &str, css: &str) -> (v: Self)
        ensures
            v@ == fresh_view(html@, css@),
    {
        WebView {
            html: String::from_str(html),
            css: String::from_str(css),
            title: String::from_str("新标签页"),
            navigation_epoch: 0,
            needs_repaint: true,
            close_scheduled: false,
            pixels: Vec::new(),
            width: 0,
            height: 0,
            logical_width: 0,
            logical_height: 0,
            scale_bits: SCALE_ONE_BITS,
        }
    }

    /// Sets the tab title.
    pub fn set_title(&mut self, title: &str)
        ensures
            final(self)@ == (WebViewModel { title: title@, ..old(self)@ }),
    {
        self.title = String::from_str(title);
    }

    /// Marks the view for repaint (reload, tab switch, new content).
    pub fn mark_needs_repaint(&mut self)
        ensures
            final(self)@ == marked(old(self)@),
    {
        self.needs_repaint = true;
    }

    /// Marks the view as closing; [`WebViewCollection::flush_close`] removes
    /// it.
    pub fn mark_close_scheduled(&mut self)
        ensures
            final(self)@ == (WebViewModel { close_scheduled: true, ..old(self)@ }),
    {
        self.close_scheduled = true;
    }

    /// Whether the view must be rendered again.
    pub fn needs_repaint(&self) -> (b: bool)
        ensures
            b == self@.needs_repaint,
    {
        self.needs_repaint
    }

    /// Whether the view is waiting to be closed.
    pub fn close_scheduled(&self) -> (b: bool)
        ensures
            b == self@.close_scheduled,
    {
        self.close_scheduled
    }

    /// The layout state of the last render: logical width, logical height
    /// and the bit pattern of the scale.
    pub fn layout_state(&self) -> (r: (u32, u32, u32))
        ensures
            r == (self@.logical_width, self@.logical_height, self@.scale_bits),
    {
        (self.logical_width, self.logical_height, self.scale_bits)
    }

    /// Whether the page is to be rendered again for this viewport: it is
    /// marked for repaint, or its logical size differs from the layout
    /// state of the last render, or its scale is not `==` to that scale as
    /// an `f32` (a NaN scale always differs; 0.0 and -0.0 are equal).
    pub fn needs_render(&self, logical_width: u32, logical_height: u32, scale_bits: u32) -> (b: bool)
        ensures
            b == (self@.needs_repaint || logical_width != self@.logical_width || logical_height
                != self@.logical_height || !f32_bits_eq(scale_bits, self@.scale_bits)),
    {
        self.needs_repaint || logical_width != self.logical_width || logical_height
            != self.logical_height || !f32_bits_eq_exec(scale_bits, self.scale_bits)
    }

    /// Stores a rendered frame and the layout state it was rendered for,
    /// and clears the repaint flag.
    pub fn store_render(
        &mut self,
        pixels: Vec<u8>,
        width: u32,
        height: u32,
        logical_width: u32,
        logical_height: u32,
        scale_bits: u32,
    )
        ensures
            final(self)@ == (WebViewModel {
                pixels: pixels@,
                width,
                height,
                logical_width,
                logical_height,
                scale_bits,
                needs_repaint: false,
                ..old(self)@
            }),
    {
        self.pixels = pixels;
        self.width = width;
        self.height = height;
        self.logical_width = logical_width;
        self.logical_height = logical_height;
        self.scale_bits = scale_bits;
        self.needs_repaint = false;
    }

    /// The last frame: RGBA pixels, width and height.
    pub fn frame(&self) -> (r: (&[u8], u32, u32))
        ensures
            r.0@ == self@.pixels,
            r.1 == self@.width,
            r.2 == self@.height,
    {
        (self.pixels.as_slice(), self.width, self.height)
    }
}

// ───────────────────────────── the collection ─────────────────────────────

/// Mathematical model of the tab collection.
pub struct CollectionModel {
    pub views: Seq<WebViewModel>,
    pub active: int,
}

/// The views that a flush keeps: those not marked for closing, in order.
pub open spec fn kept(s: Seq<WebViewModel>) -> Seq<WebViewModel>
    decreases s.len(),
{
    if s.len() == 0 {
        Seq::empty()
    } else if s.last().close_scheduled {
        kept(s.drop_last())
    } else {
        kept(s.drop_last()).push(s.last())
    }
}

/// The number of views marked for closing.
pub open spec fn count_closed(s: Seq<WebViewModel>) -> nat
    decreases s.len(),
{
    if s.len() == 0 {
        0
    } else if s.last().close_scheduled {
        count_closed(s.drop_last()) + 1
    } else {
        count_closed(s.drop_last())
    }
}

/// The active index after a flush: shifted left by the closed views before
/// it, clamped to the last view; 0 when no view is left.
pub open spec fn flushed_active(views: Seq<WebViewModel>, active: int) -> int {
    let left = kept(views).len();
    if left == 0 {
        0
    } else {
        let a = active - count_closed(views.subrange(0, active));
        if a < left {
            a
        } else {
            left - 1
        }
    }
}

/// The collection after a flush.
pub open spec fn flushed(m: CollectionModel) -> CollectionModel {
    let views = kept(m.views);
    let a = flushed_active(m.views, m.active);
    CollectionModel {
        views: if views.len() > 0 {
            views.update(a, marked(views[a]))
        } else {
            views
        },
        active: a,
    }
}

/// The collection with `index` selected: a change of the active tab marks
/// the new active view for repaint.
pub open spec fn selected(m: CollectionModel, index: int) -> CollectionModel {
    if index == m.active {
        m
    } else {
        CollectionModel { views: m.views.update(index, marked(m.views[index])), active: index }
    }
}

/// Multi-tab collection: the views and the active index.
///
/// Invariant: while there are views, the active index names one of them.
#[derive(Clone, Debug)]
pub struct WebViewCollection {
    views: Vec<WebView>,
    active: usize,
}

impl View for WebViewCollection {
    type V = CollectionModel;

    closed spec fn view(&self) -> CollectionModel {
        CollectionModel { views: views_model(self.views@), active: self.active as int }
    }
}

spec fn views_model(s: Seq<WebView>) -> Seq<WebViewModel> {
    s.map_values(|v: WebView| v@)
}

proof fn lemma_views_model_update(s: Seq<WebView>, i: int)
    requires
        0 <= i < s.len(),
    ensures
        forall|v: WebView| #[trigger] views_model(s.update(i, v)) == views_model(s).update(i, v@),
{
    assert forall|v: WebView| #[trigger] views_model(s.update(i, v)) == views_model(s).update(
        i,
        v@,
    ) by {
        assert(views_model(s.update(i, v)) =~= views_model(s).update(i, v@));
    }
}

/// One step of a flush over the views from index `j` of `orig` on: the
/// view there is the next one left, and is dropped or kept.
proof fn lemma_flush_step(orig: Seq<WebViewModel>, j: int, v: Seq<WebViewModel>)
    requires
        0 <= j < orig.len(),
        v == kept(orig.subrange(0, j)) + orig.subrange(j, orig.len() as int),
    ensures
        ({
            let i = kept(orig.subrange(0, j)).len() as int;
            &&& v[i] == orig[j]
            &&& i < v.len()
            &&& orig[j].close_scheduled ==> v.remove(i) == kept(orig.subrange(0, j + 1))
                + orig.subrange(j + 1, orig.len() as int)
            &&& !orig[j].close_scheduled ==> v == kept(orig.subrange(0, j + 1)) + orig.subrange(
                j + 1,
                orig.len() as int,
            )
            &&& kept(orig.subrange(0, j + 1)).len() == i + if orig[j].close_scheduled {
                0int
            } else {
                1int
            }
            &&& count_closed(orig.subrange(0, j + 1)) == count_closed(orig.subrange(0, j)) + if orig[j].close_scheduled {
                1nat
            } else {
                0nat
            }
        }),
{
    let pre = orig.subrange(0, j);
    assert(orig.subrange(0, j + 1) =~= pre.push(orig[j]));
    lemma_kept_push(pre, orig[j]);
    let i = kept(pre).len() as int;
    let k = kept(pre);
    assert(v[i] == orig[j]);
    if orig[j].close_scheduled {
        assert(v.remove(i) =~= k + orig.subrange(j + 1, orig.len() as int));
    } else {
        assert(v =~= k.push(orig[j]) + orig.subrange(j + 1, orig.len() as int));
    }
}

/// The collection's invariant.
pub open spec fn collection_wf(m: CollectionModel) -> bool {
    &&& 0 <= m.active
    &&& m.views.len() > 0 ==> m.active < m.views.len()
    &&& m.views.len() == 0 ==> m.active == 0
}

proof fn lemma_kept_len(s: Seq<WebViewModel>)
    ensures
        kept(s).len() + count_closed(s) == s.len(),
        forall|i: int| 0 <= i < kept(s).len() ==> !(#[trigger] kept(s)[i]).close_scheduled,
    decreases s.len(),
{
    if s.len() > 0 {
        lemma_kept_len(s.drop_last());
    }
}

proof fn lemma_kept_push(s: Seq<WebViewModel>, v: WebViewModel)
    ensures
        kept(s.push(v)) == if v.close_scheduled {
            kept(s)
        } else {
            kept(s).push(v)
        },
        count_closed(s.push(v)) == count_closed(s) + if v.close_scheduled {
            1nat
        } else {
            0nat
        },
{
    assert(s.push(v).drop_last() =~= s);
}

/// A view that is not closed keeps its place among the kept views: it comes
/// after the kept views before it.
proof fn lemma_kept_index(s: Seq<WebViewModel>, k: int)
    requires
        0 <= k < s.len(),
        !s[k].close_scheduled,
    ensures
        k - count_closed(s.subrange(0, k)) < kept(s).len(),
        kept(s)[k - count_closed(s.subrange(0, k))] == s[k],
    decreases s.len(),
{
    let pre = s.subrange(0, k);
    lemma_kept_len(pre);
    if k == s.len() - 1 {
        assert(s =~= pre.push(s[k]));
        lemma_kept_push(pre, s[k]);
    } else {
        let d = s.drop_last();
        assert(d.subrange(0, k) =~= pre);
        lemma_kept_index(d, k);
        assert(s =~= d.push(s.last()));
        lemma_kept_push(d, s.last());
    }
}

impl WebViewCollection {
    /// The collection's invariant.
    pub open spec fn wf(&self) -> bool {
        collection_wf(self@)
    }

    proof fn lemma_view(&self)
        ensures
            self@.views.len() == self.views@.len(),
            self@.active == self.active,
            forall|i: int| 0 <= i < self.views@.len() ==> #[trigger] self@.views[i] == self.views@[i]@,
    {
    }

    /// A collection with one tab, holding the given content, active.
    pub fn new(html: &str, css: &str) -> (c: Self)
        ensures
            c.wf(),
            c@.views == seq![fresh_view(html@, css@)],
            c@.active == 0,
    {
        let mut views: Vec<WebView> = Vec::new();
        views.push(WebView::new(html, css));
        let c = WebViewCollection { views, active: 0 };
        proof {
            c.lemma_view();
            assert(c@.views =~= seq![fresh_view(html@, css@)]);
        }
        c
    }

    /// Opens a new tab with the given content and makes it active.
    pub fn new_tab(&mut self, html: &str, css: &str)
        requires
            old(self).wf(),
        ensures
            final(self).wf(),
            final(self)@.views == old(self)@.views.push(fresh_view(html@, css@)),
            final(self)@.active == old(self)@.views.len(),
    {
        proof {
            self.lemma_view();
        }
        self.views.push(WebView::new(html, css));
        self.active = self.views.len() - 1;
        proof {
            self.lemma_view();
            assert(self@.views =~= old(self)@.views.push(fresh_view(html@, css@)));
        }
    }

    /// Marks the active tab as closing; it is removed at the next
    /// [`Self::flush_close`].
    pub fn close_active(&mut self)
        requires
            old(self).wf(),
            old(self)@.views.len() > 0,
        ensures
            final(self).wf(),
            final(self)@.active == old(self)@.active,
            final(self)@.views == old(self)@.views.update(
                old(self)@.active,
                WebViewModel { close_scheduled: true, ..old(self)@.views[old(self)@.active] },
            ),
    {
        proof {
            self.lemma_view();
        }
        let a = self.active;
        let v = &mut self.views[a];
        v.mark_close_scheduled();
        proof {
            self.lemma_view();
            assert(self@.views =~= old(self)@.views.update(
                old(self)@.active,
                WebViewModel { close_scheduled: true, ..old(self)@.views[old(self)@.active] },
            ));
        }
    }

    fn mark_at(&mut self, i: usize)
        requires
            i < old(self)@.views.len(),
        ensures
            final(self)@ == (CollectionModel {
                views: old(self)@.views.update(i as int, marked(old(self)@.views[i as int])),
                ..old(self)@
            }),
    {
        proof {
            self.lemma_view();
        }
        let v = &mut self.views[i];
        v.mark_needs_repaint();
        proof {
            self.lemma_view();
            assert(self@.views =~= old(self)@.views.update(
                i as int,
                marked(old(self)@.views[i as int]),
            ));
        }
    }

    /// Removes every tab marked for closing and returns how many were
    /// removed.
    ///
    /// The remaining tabs keep their order. The active index moves left by
    /// the number of removed tabs before it; when the active tab itself was
    /// removed it lands on its successor at the same place, or on the new
    /// last tab; with no tab left it is 0. The new active tab is marked for
    /// repaint.
    pub fn flush_close(&mut self) -> (removed: usize)
        requires
            old(self).wf(),
        ensures
            final(self).wf(),
            final(self)@ == flushed(old(self)@),
            removed == old(self)@.views.len() - final(self)@.views.len(),
            forall|i: int|
                0 <= i < final(self)@.views.len() ==> !(#[trigger] final(self)@.views[i]).close_scheduled,
            old(self)@.views.len() > 0 && !old(self)@.views[old(self)@.active].close_scheduled
                ==> final(self)@.views[final(self)@.active] == marked(
                old(self)@.views[old(self)@.active],
            ),
    {
        let ghost orig = self@.views;
        let old_active = self.active;
        let mut closed_before: usize = 0;
        let mut removed: usize = 0;
        let mut i: usize = 0;
        let len = self.views.len();
        proof {
            self.lemma_view();
            assert(orig.subrange(0, 0) =~= Seq::<WebViewModel>::empty());
            assert(orig.subrange(0, 0) + orig.subrange(0, orig.len() as int) =~= orig);
        }
        while i < self.views.len()
            invariant
                orig == old(self)@.views,
                old_active == old(self)@.active,
                collection_wf(old(self)@),
                orig.len() == len,
                i + removed <= orig.len(),
                self@.views == kept(orig.subrange(0, i + removed)) + orig.subrange(
                    i + removed,
                    orig.len() as int,
                ),
                i == kept(orig.subrange(0, i + removed)).len(),
                removed == count_closed(orig.subrange(0, i + removed)),
                closed_before == count_closed(
                    orig.subrange(
                        0,
                        if i + removed < old_active {
                            i + removed
                        } else {
                            old_active as int
                        },
                    ),
                ),
                closed_before <= removed,
            decreases self.views.len() - i,
        {
            proof {
                self.lemma_view();
                if i + removed >= orig.len() {
                    assert(self@.views =~= kept(orig.subrange(0, i + removed)));
                }
                lemma_flush_step(orig, (i + removed) as int, self@.views);
            }
            let j: usize = i + removed;
            if self.views[i].close_scheduled() {
                let _ = self.views.remove(i);
                removed = removed + 1;
                if j < old_active {
                    closed_before = closed_before + 1;
                }
            } else {
                i = i + 1;
            }
            proof {
                self.lemma_view();
                assert(self@.views =~= kept(orig.subrange(0, i + removed)) + orig.subrange(
                    i + removed,
                    orig.len() as int,
                ));
            }
        }
        proof {
            self.lemma_view();
            let j = i + removed;
            assert(j == orig.len()) by {
                if j < orig.len() {
                    assert(self@.views.len() > i);
                }
            }
            assert(orig.subrange(0, orig.len() as int) =~= orig);
            assert(self@.views =~= kept(orig));
            lemma_kept_len(orig);
            lemma_kept_len(orig.subrange(0, old_active as int));
        }
        if self.views.len() == 0 {
            self.active = 0;
        } else {
            let a = old_active - closed_before;
            let last = self.views.len() - 1;
            self.active = if a < last {
                a
            } else {
                last
            };
            let k = self.active;
            self.mark_at(k);
        }
        proof {
            self.lemma_view();
            if orig.len() > 0 && !orig[old_active as int].close_scheduled {
                lemma_kept_index(orig, old_active as int);
            }
        }
        removed
    }

    fn set_active(&mut self, index: usize)
        requires
            old(self).wf(),
            index < old(self)@.views.len(),
        ensures
            final(self).wf(),
            final(self)@ == selected(old(self)@, index as int),
    {
        proof {
            self.lemma_view();
        }
        if index != self.active {
            self.active = index;
            self.mark_at(index);
        }
    }

    /// Selects the next tab, wrapping around.
    pub fn select_next(&mut self)
        requires
            old(self).wf(),
        ensures
            final(self).wf(),
            final(self)@ == if old(self)@.views.len() > 1 {
                selected(old(self)@, (old(self)@.active + 1) % (old(self)@.views.len() as int))
            } else {
                old(self)@
            },
    {
        proof {
            self.lemma_view();
        }
        let n = self.views.len();
        if n > 1 {
            let next = if self.active + 1 < n {
                self.active + 1
            } else {
                0
            };
            proof {
                let a = self@.active;
                if a + 1 < n {
                    assert((a + 1) % (n as int) == a + 1) by (nonlinear_arith)
                        requires
                            0 <= a,
                            a + 1 < n,
                    ;
                } else {
                    assert((a + 1) % (n as int) == 0) by (nonlinear_arith)
                        requires
                            a + 1 == n,
                            n > 1,
                    ;
                }
            }
            self.set_active(next);
        }
    }

    /// Selects the previous tab, wrapping around.
    pub fn select_prev(&mut self)
        requires
            old(self).wf(),
        ensures
            final(self).wf(),
            final(self)@ == if old(self)@.views.len() > 1 {
                selected(
                    old(self)@,
                    (old(self)@.active + old(self)@.views.len() - 1) % (old(self)@.views.len() as int),
                )
            } else {
                old(self)@
            },
    {
        proof {
            self.lemma_view();
        }
        let n = self.views.len();
        if n > 1 {
            let prev = if self.active > 0 {
                self.active - 1
            } else {
                n - 1
            };
            proof {
                let a = self@.active;
                assert(prev == (a + n - 1) % (n as int)) by {
                    if a > 0 {
                        assert((a + n - 1) % (n as int) == a - 1) by (nonlinear_arith)
                            requires
                                0 < a < n,
                        ;
                    } else {
                        assert((n - 1) % (n as int) == n - 1) by (nonlinear_arith)
                            requires
                                n > 1,
                        ;
                    }
                }
            }
            self.set_active(prev);
        }
    }

    /// Selects the tab at `index`; an index out of range is ignored (as
    /// with Ctrl+1..9 in a browser).
    pub fn select(&mut self, index: usize)
        requires
            old(self).wf(),
        ensures
            final(self).wf(),
            final(self)@ == if index < old(self)@.views.len() {
                selected(old(self)@, index as int)
            } else {
                old(self)@
            },
    {
        proof {
            self.lemma_view();
        }
        if index < self.views.len() {
            self.set_active(index);
        }
    }

    /// The index of the active tab.
    pub fn active_index(&self) -> (a: usize)
        ensures
            a == self@.active,
    {
        proof {
            self.lemma_view();
        }
        self.active
    }

    /// The number of tabs.
    pub fn len(&self) -> (n: usize)
        ensures
            n == self@.views.len(),
    {
        proof {
            self.lemma_view();
        }
        self.views.len()
    }

    /// Whether every tab has been closed.
    pub fn is_empty(&self) -> (b: bool)
        ensures
            b == (self@.views.len() == 0),
    {
        proof {
            self.lemma_view();
        }
        self.views.len() == 0
    }

    /// The active view.
    pub fn active(&self) -> (v: &WebView)
        requires
            self.wf(),
            self@.views.len() > 0,
        ensures
            v@ == self@.views[self@.active],
    {
        proof {
            self.lemma_view();
        }
        &self.views[self.active]
    }

    /// The view at `index`, for update (also of a tab that is not active);
    /// `None` when the index is out of range.
    pub fn get_mut(&mut self, index: usize) -> (r: Option<&mut WebView>)
        ensures
            index < old(self)@.views.len() ==> r.is_some() && (*r.unwrap())@ == old(
                self,
            )@.views[index as int] && final(self)@ == (CollectionModel {
                views: old(self)@.views.update(index as int, (*final(r.unwrap()))@),
                ..old(self)@
            }),
            index >= old(self)@.views.len() ==> r.is_none() && final(self)@ == old(self)@,
    {
        proof {
            self.lemma_view();
        }
        if index < self.views.len() {
            proof {
                lemma_views_model_update(self.views@, index as int);
            }
            Some(&mut self.views[index])
        } else {
            None
        }
    }

    /// The titles of all tabs, in tab order.
    pub fn titles(&self) -> (t: Vec<&str>)
        ensures
            t@.len() == self@.views.len(),
            forall|i: int| 0 <= i < t@.len() ==> (#[trigger] t@[i])@ == self@.views[i].title,
    {
        proof {
            self.lemma_view();
        }
        let mut t: Vec<&str> = Vec::new();
        let mut i: usize = 0;
        while i < self.views.len()
            invariant
                i <= self.views@.len(),
                t@.len() == i,
                forall|k: int| 0 <= k < i ==> (#[trigger] t@[k])@ == self@.views[k].title,
            decreases self.views.len() - i,
        {
            proof {
                self.views@[i as int].lemma_fields();
            }
            t.push(self.views[i].title.as_str());
            i = i + 1;
        }
        t
    }

    /// The active view, for update.
    pub fn active_mut(&mut self) -> (v: &mut WebView)
        requires
            old(self).wf(),
            old(self)@.views.len() > 0,
        ensures
            (*v)@ == old(self)@.views[old(self)@.active],
            final(self)@ == (CollectionModel {
                views: old(self)@.views.update(old(self)@.active, (*final(v))@),
                ..old(self)@
            }),
    {
        proof {
            self.lemma_view();
        }
        let a = self.active;
        proof {
            lemma_views_model_update(self.views@, a as int);
        }
        &mut self.views[a]
    }
}

/// A navigation result applied to a view: the page document (its final URL
/// as the title), or the error page for the requested URL; the view is
/// marked for repaint.
pub open spec fn applied(v: WebViewModel, o: OutcomeModel) -> WebViewModel {
    match o.result {
        Ok(d) => marked(WebViewModel { html: d.html, css: d.css, title: d.final_url, ..v }),
        Err(msg) => marked(
            WebViewModel {
                html: error_page_model(o.url, msg),
                css: Seq::empty(),
                title: o.url,
                ..v
            },
        ),
    }
}

/// Whether a navigation result is still wanted: its tab exists and has the
/// same navigation generation.
pub open spec fn outcome_current(m: CollectionModel, o: OutcomeModel) -> bool {
    (o.tab as int) < m.views.len() && m.views[o.tab as int].navigation_epoch == o.epoch
}

/// Applies an arriving navigation result to its tab and returns whether a
/// page changed. A result for a tab that no longer exists, or whose
/// generation no longer matches (the address was changed since, or the tab
/// index was reused), is dropped.
pub fn apply_navigation_outcome(views: &mut WebViewCollection, outcome: NavigationOutcome) -> (changed:
    bool)
    requires
        old(views).wf(),
    ensures
        final(views).wf(),
        changed == outcome_current(old(views)@, outcome@),
        changed ==> final(views)@ == (CollectionModel {
            views: old(views)@.views.update(
                outcome@.tab as int,
                applied(old(views)@.views[outcome@.tab as int], outcome@),
            ),
            ..old(views)@
        }),
        !changed ==> final(views)@ == old(views)@,
{
    let ghost o = outcome@;
    let tab = outcome.tab;
    match views.get_mut(tab) {
        None => false,
        Some(view) => {
            if view.navigation_epoch != outcome.epoch {
                proof {
                    assert(old(views)@.views.update(tab as int, old(views)@.views[tab as int])
                        =~= old(views)@.views);
                }
                return false;
            }
            match outcome.result {
                Ok(doc) => {
                    view.html = doc.html;
                    view.css = doc.css;
                    view.title = doc.final_url;
                },
                Err(message) => {
                    view.css = String::new();
                    view.html = error_page(outcome.url.as_str(), message.as_str());
                    view.title = outcome.url;
                },
            }
            view.mark_needs_repaint();
            true
        },
    }
}

// ───────────────────────────── address-bar navigation ─────────────────────────────

/// What the window layer does after an address-bar submission.
#[derive(Debug)]
pub enum NavigationAction {
    /// Fetch `url` on a navigation thread, for `tab` at generation `epoch`.
    Fetch { url: String, tab: usize, epoch: u64 },
    /// Read the file at `path` and hand the result to
    /// [`finish_file_navigation`].
    LoadFile { path: String },
    /// Nothing to do: the page is shown already.
    Shown,
}

/// Mathematical model of a navigation action.
pub enum ActionModel {
    Fetch { url: Seq<char>, tab: int, epoch: u64 },
    LoadFile { path: Seq<char> },
    Shown,
}

impl View for NavigationAction {
    type V = ActionModel;

    open spec fn view(&self) -> ActionModel {
        match self {
            NavigationAction::Fetch { url, tab, epoch } => ActionModel::Fetch {
                url: url@,
                tab: *tab as int,
                epoch: *epoch,
            },
            NavigationAction::LoadFile { path } => ActionModel::LoadFile { path: path@ },
            NavigationAction::Shown => ActionModel::Shown,
        }
    }
}

/// The active view once a navigation of `input` has started: a new
/// generation, and for http the URL as title, for an unsupported scheme the
/// placeholder page.
pub open spec fn started(v: WebViewModel, input: Seq<char>) -> WebViewModel {
    let e = (v.navigation_epoch + 1) as u64;
    match classify(input) {
        KindModel::Http(u) => marked(WebViewModel { navigation_epoch: e, title: u, ..v }),
        KindModel::File(_) => WebViewModel { navigation_epoch: e, ..v },
        KindModel::Unsupported(u) => marked(
            WebViewModel {
                navigation_epoch: e,
                css: Seq::empty(),
                html: url_placeholder_page_model(u),
                title: u,
                ..v
            },
        ),
    }
}

/// The action that starting a navigation of `input` asks for.
pub open spec fn start_action(m: CollectionModel, input: Seq<char>) -> ActionModel {
    match classify(input) {
        KindModel::Http(u) => ActionModel::Fetch {
            url: u,
            tab: m.active,
            epoch: (m.views[m.active].navigation_epoch + 1) as u64,
        },
        KindModel::File(p) => ActionModel::LoadFile { path: p },
        KindModel::Unsupported(_) => ActionModel::Shown,
    }
}

/// Starts an address-bar navigation in the active tab. The old page stays
/// while an http page loads; every kind of navigation advances the tab's
/// generation, so that results of earlier navigations still in flight are
/// dropped on arrival.
pub fn start_navigation(views: &mut WebViewCollection, input: &str) -> (a: NavigationAction)
    requires
        old(views).wf(),
        old(views)@.views.len() > 0,
        old(views)@.views[old(views)@.active].navigation_epoch < u64::MAX,
    ensures
        final(views).wf(),
        a@ == start_action(old(views)@, input@),
        final(views)@ == (CollectionModel {
            views: old(views)@.views.update(
                old(views)@.active,
                started(old(views)@.views[old(views)@.active], input@),
            ),
            ..old(views)@
        }),
{
    let kind = classify_url(input);
    let tab = views.active_index();
    let view = views.active_mut();
    view.navigation_epoch = view.navigation_epoch + 1;
    let epoch = view.navigation_epoch;
    match kind {
        NavigationKind::Http(url) => {
            view.set_title(url.as_str());
            view.mark_needs_repaint();
            NavigationAction::Fetch { url, tab, epoch }
        },
        NavigationKind::File(path) => NavigationAction::LoadFile { path },
        NavigationKind::Unsupported(url) => {
            view.css = String::new();
            view.html = url_placeholder_page(url.as_str());
            view.set_title(url.as_str());
            view.mark_needs_repaint();
            NavigationAction::Shown
        },
    }
}

/// The active view once a file navigation has read the file (`Ok` with its
/// text, titled `title`) or failed (`Err` with the message, shown as the
/// error page for `path`).
pub open spec fn file_loaded(
    v: WebViewModel,
    path: Seq<char>,
    title: Seq<char>,
    loaded: Result<Seq<char>, Seq<char>>,
) -> WebViewModel {
    match loaded {
        Ok(html) => marked(WebViewModel { css: styles_from(html, 0), html, title, ..v }),
        Err(msg) => marked(
            WebViewModel { css: Seq::empty(), html: error_page_model(path, msg), title: path, ..v },
        ),
    }
}

/// Completes a file navigation of the active tab with what reading the
/// file gave.
pub fn finish_file_navigation(
    views: &mut WebViewCollection,
    path: &str,
    title: &str,
    loaded: Result<String, String>,
)
    requires
        old(views).wf(),
        old(views)@.views.len() > 0,
    ensures
        final(views).wf(),
        final(views)@ == (CollectionModel {
            views: old(views)@.views.update(
                old(views)@.active,
                file_loaded(
                    old(views)@.views[old(views)@.active],
                    path@,
                    title@,
                    match loaded {
                        Ok(h) => Ok(h@),
                        Err(m) => Err(m@),
                    },
                ),
            ),
            ..old(views)@
        }),
{
    let view = views.active_mut();
    match loaded {
        Ok(html) => {
            view.css = extract_inline_style(html.as_str());
            view.html = html;
            view.set_title(title);
        },
        Err(message) => {
            view.css = String::new();
            view.html = error_page(path, message.as_str());
            view.set_title(path);
        },
    }
    view.mark_needs_repaint();
}

/// A view reloaded from its source file: the new HTML and its CSS, the new
/// title when there is one, marked for repaint.
pub open spec fn reloaded(v: WebViewModel, html: Seq<char>, title: Option<Seq<char>>) -> WebViewModel {
    marked(
        WebViewModel {
            html,
            css: styles_from(html, 0),
            title: match title {
                Some(t) => t,
                None => v.title,
            },
            ..v
        },
    )
}

/// Loads the new content of the watched source file into tab `tab`, and
/// returns whether its HTML changed; a tab that no longer exists is left
/// alone.
pub fn reload_source_tab(views: &mut WebViewCollection, tab: usize, html: String, title: Option<&str>) -> (changed: bool)
    requires
        old(views).wf(),
    ensures
        final(views).wf(),
        (tab as int) < old(views)@.views.len() ==> changed == (old(views)@.views[tab as int].html
            != html@) && final(views)@ == (CollectionModel {
            views: old(views)@.views.update(
                tab as int,
                reloaded(
                    old(views)@.views[tab as int],
                    html@,
                    match title {
                        Some(t) => Some(t@),
                        None => None,
                    },
                ),
            ),
            ..old(views)@
        }),
        (tab as int) >= old(views)@.views.len() ==> !changed && final(views)@ == old(views)@,
{
    match views.get_mut(tab) {
        None => false,
        Some(view) => {
            let changed = view.html != html;
            view.css = extract_inline_style(html.as_str());
            view.html = html;
            if let Some(t) = title {
                view.set_title(t);
            }
            view.mark_needs_repaint();
            changed
        },
    }
}

// ───────────────────────────── shortcuts and chrome effects ─────────────────────────────

/// The active view marked for repaint (after any change of tabs).
pub open spec fn mark_active(m: CollectionModel) -> CollectionModel {
    CollectionModel { views: m.views.update(m.active, marked(m.views[m.active])), ..m }
}

/// The title of the tab opened as number `n`.
pub open spec fn tab_title(n: nat) -> Seq<char> {
    "Tab "@ + decimal(n)
}

/// The collection with a new tab, number `len + 1`, showing its number,
/// active and marked for repaint.
pub open spec fn with_new_tab(m: CollectionModel) -> CollectionModel {
    let n = (m.views.len() + 1) as nat;
    CollectionModel {
        views: m.views.push(
            marked(
                WebViewModel { title: tab_title(n), ..fresh_view(new_tab_content_model(n), Seq::empty()) },
            ),
        ),
        active: m.views.len() as int,
    }
}

/// The collection with the active tab marked for closing.
pub open spec fn active_closed(m: CollectionModel) -> CollectionModel {
    CollectionModel {
        views: m.views.update(m.active, WebViewModel { close_scheduled: true, ..m.views[m.active] }),
        ..m
    }
}

/// `select(i)`: selects an index in range, ignores one out of range.
pub open spec fn select_model(m: CollectionModel, i: int) -> CollectionModel {
    if 0 <= i < m.views.len() {
        selected(m, i)
    } else {
        m
    }
}

/// The tabs after a shortcut.
pub open spec fn shortcut_model(m: CollectionModel, a: ShortcutAction) -> CollectionModel {
    let n = m.views.len() as int;
    match a {
        ShortcutAction::Close => m,
        ShortcutAction::FocusAddress => m,
        ShortcutAction::Reload => mark_active(m),
        ShortcutAction::NewTab => with_new_tab(m),
        ShortcutAction::CloseTab => mark_active(active_closed(m)),
        ShortcutAction::NextTab => mark_active(
            if n > 1 {
                selected(m, (m.active + 1) % n)
            } else {
                m
            },
        ),
        ShortcutAction::PrevTab => mark_active(
            if n > 1 {
                selected(m, (m.active + n - 1) % n)
            } else {
                m
            },
        ),
        ShortcutAction::TabSelect(i) => mark_active(select_model(m, i as int)),
    }
}

/// Opens tab number `len + 1` with the new-tab page, titled "Tab n".
fn open_numbered_tab(views: &mut WebViewCollection)
    requires
        old(views).wf(),
        old(views)@.views.len() + 1 < usize::MAX,
    ensures
        final(views).wf(),
        final(views)@ == with_new_tab(old(views)@),
{
    let n = views.len() + 1;
    let content = new_tab_content(n);
    proof {
        reveal_strlit("");
        assert(""@ =~= Seq::<char>::empty());
    }
    views.new_tab(content.as_str(), "");
    let mut t: Vec<char> = Vec::new();
    crate::text::push_str(&mut t, "Tab ");
    push_decimal(&mut t, n);
    proof {
        assert(t@ =~= tab_title(n as nat));
    }
    let title = crate::text::chars_to_string(&t);
    let view = views.active_mut();
    view.set_title(title.as_str());
    view.mark_needs_repaint();
    proof {
        assert(views@.views =~= with_new_tab(old(views)@).views);
    }
}

/// Applies a shell shortcut to the tabs and the address bar, and returns
/// whether the window is to close. Every action but Close and
/// FocusAddress ends with the active tab marked for repaint; FocusAddress
/// gives the address bar the focus.
pub fn apply_shortcut(views: &mut WebViewCollection, bar: &mut AddressBar, action: ShortcutAction) -> (exit:
    bool)
    requires
        old(views).wf(),
        old(views)@.views.len() > 0,
        old(views)@.views.len() + 1 < usize::MAX,
    ensures
        final(views).wf(),
        exit == (action == ShortcutAction::Close),
        final(views)@ == shortcut_model(old(views)@, action),
        final(bar)@ == if action == ShortcutAction::FocusAddress {
            AddressModel { focused: true, ..old(bar)@ }
        } else {
            old(bar)@
        },
{
    match action {
        ShortcutAction::Close => {
            return true;
        },
        ShortcutAction::FocusAddress => {
            bar.focused = true;
            return false;
        },
        ShortcutAction::Reload => {},
        ShortcutAction::NewTab => {
            open_numbered_tab(views);
            return false;
        },
        ShortcutAction::CloseTab => {
            views.close_active();
        },
        ShortcutAction::NextTab => {
            views.select_next();
        },
        ShortcutAction::PrevTab => {
            views.select_prev();
        },
        ShortcutAction::TabSelect(i) => {
            views.select(i);
        },
    }
    views.active_mut().mark_needs_repaint();
    false
}

/// What the window does after a chrome effect.
#[derive(Debug, PartialEq, Eq)]
pub enum EffectAction {
    /// Draw again.
    Redraw,
    /// Navigate the active tab to this input (see [`start_navigation`]).
    Navigate(String),
    /// Nothing.
    Nothing,
}

/// Mathematical model of an effect action.
pub enum EffectActionModel {
    Redraw,
    Navigate(Seq<char>),
    Nothing,
}

impl View for EffectAction {
    type V = EffectActionModel;

    open spec fn view(&self) -> EffectActionModel {
        match self {
            EffectAction::Redraw => EffectActionModel::Redraw,
            EffectAction::Navigate(u) => EffectActionModel::Navigate(u@),
            EffectAction::Nothing => EffectActionModel::Nothing,
        }
    }
}

/// The tabs after a chrome effect, and what the window does next:
/// switching selects the tab, closing selects it then closes the active
/// tab, a new tab shows its number, a submitted address is navigated only
/// when not empty.
pub open spec fn effect_model(m: CollectionModel, e: EffectModel) -> (CollectionModel, EffectActionModel) {
    match e {
        EffectModel::Repaint => (m, EffectActionModel::Redraw),
        EffectModel::SwitchTab(i) => (mark_active(select_model(m, i as int)), EffectActionModel::Redraw),
        EffectModel::CloseTab(i) => (
            mark_active(active_closed(select_model(m, i as int))),
            EffectActionModel::Redraw,
        ),
        EffectModel::NewTab => (with_new_tab(m), EffectActionModel::Redraw),
        EffectModel::ReloadPage => (mark_active(m), EffectActionModel::Redraw),
        EffectModel::UrlSubmitted(u) => if u.len() > 0 {
            (m, EffectActionModel::Navigate(u))
        } else {
            (m, EffectActionModel::Nothing)
        },
    }
}

/// Applies a chrome effect (from a click or the address bar) to the tabs.
pub fn apply_effect(views: &mut WebViewCollection, effect: ChromeEffect) -> (a: EffectAction)
    requires
        old(views).wf(),
        old(views)@.views.len() > 0,
        old(views)@.views.len() + 1 < usize::MAX,
    ensures
        final(views).wf(),
        (final(views)@, a@) == effect_model(old(views)@, effect@),
{
    match effect {
        ChromeEffect::Repaint => EffectAction::Redraw,
        ChromeEffect::SwitchTab(i) => {
            views.select(i);
            views.active_mut().mark_needs_repaint();
            EffectAction::Redraw
        },
        ChromeEffect::CloseTab(i) => {
            views.select(i);
            views.close_active();
            views.active_mut().mark_needs_repaint();
            EffectAction::Redraw
        },
        ChromeEffect::NewTab => {
            open_numbered_tab(views);
            EffectAction::Redraw
        },
        ChromeEffect::ReloadPage => {
            views.active_mut().mark_needs_repaint();
            EffectAction::Redraw
        },
        ChromeEffect::UrlSubmitted(u) => {
            if u.as_str().unicode_len() > 0 {
                EffectAction::Navigate(u)
            } else {
                EffectAction::Nothing
            }
        },
    }
}

} // verus!
