//! A pool of reusable, OS-backed transparent overlay window handles, and
//! the show/hide choreography with the main application window.
//!
//! The pool only decides: every transition returns a directive with the
//! window-system work the application layer must perform (hide or restore
//! the main window, show, build or close overlay windows). Window calls can
//! fail independently; a failure is reported by that layer and does not roll
//! the pool state back — visibility choreography is best-effort, not
//! transactional.

use vstd::prelude::*;

verus! {

/// Seconds an idle pooled handle may sit unused before a cleanup sweep
/// destroys it instead of keeping it around.
pub const OVERLAY_STALE_SECS: u64 = 300;

#[derive(Clone, Copy, PartialEq, Eq, Structural, Debug)]
pub enum HandleState {
    Idle,
    Active,
    ClosingStale,
}

/// One pooled overlay window handle.
#[derive(Clone, Copy, PartialEq, Eq, Structural, Debug)]
pub struct OverlayHandle {
    pub id: u64,
    pub state: HandleState,
    pub created_at: u64,
}

/// Window configuration of a selection overlay: full-screen, transparent,
/// always on top, undecorated, shadowless, fixed-size, and kept out of the
/// taskbar. `click_through` marks the window itself as passing clicks on to
/// what lies beneath; the selection drag is read by the surface drawn on
/// it, which still captures input.
#[derive(Clone, Copy, PartialEq, Eq, Structural, Debug)]
pub struct OverlayConfig {
    pub x: i32,
    pub y: i32,
    pub width: u32,
    pub height: u32,
    pub transparent: bool,
    pub click_through: bool,
    pub shadow: bool,
    pub always_on_top: bool,
    pub decorations: bool,
    pub skip_taskbar: bool,
    pub resizable: bool,
}

/// The configuration of an overlay sized to the given screen.
pub open spec fn overlay_config(screen_width: u32, screen_height: u32) -> OverlayConfig {
    OverlayConfig {
        x: 0,
        y: 0,
        width: screen_width,
        height: screen_height,
        transparent: true,
        click_through: true,
        shadow: false,
        always_on_top: true,
        decorations: false,
        skip_taskbar: true,
        resizable: false,
    }
}

/// What the window layer must do after a show request: hide the main
/// window, then show the reused overlay window (`reused`) or build a new
/// one under `handle_id` with `config`, repositioned to the screen.
#[derive(Clone, Copy, PartialEq, Eq, Structural, Debug)]
pub struct ShowDirective {
    pub handle_id: u64,
    pub reused: bool,
    pub config: OverlayConfig,
}

pub open spec fn has_active(s: Seq<OverlayHandle>) -> bool {
    exists|i: int| 0 <= i < s.len() && s[i].state is Active
}

pub open spec fn has_idle(s: Seq<OverlayHandle>) -> bool {
    exists|i: int| 0 <= i < s.len() && s[i].state is Idle
}

pub open spec fn at_most_one_active(s: Seq<OverlayHandle>) -> bool {
    forall|i: int, j: int|
        0 <= i < j < s.len() ==> !(s[i].state is Active && s[j].state is Active)
}

pub open spec fn ids_unique(s: Seq<OverlayHandle>) -> bool {
    forall|i: int, j: int| 0 <= i < j < s.len() ==> s[i].id != s[j].id
}

/// No handle lingers in `ClosingStale`: a sweep destroys such a handle in
/// the same step that marks it.
pub open spec fn none_closing(s: Seq<OverlayHandle>) -> bool {
    forall|i: int| 0 <= i < s.len() ==> !(#[trigger] s[i].state is ClosingStale)
}

/// An idle handle is stale at `now` once its age has passed the threshold.
pub open spec fn is_stale_idle(h: OverlayHandle, now: u64) -> bool {
    h.state is Idle && now - h.created_at > OVERLAY_STALE_SECS
}

/// Law (pool reuse): in a pool holding exactly one handle, and that handle
/// idle — the state after one show/hide cycle that started from an empty
/// pool — a show request finds an idle handle, and every idle handle it may
/// pick carries the id the first cycle created: two sequential show/hide
/// cycles with no cleanup between them reuse the same underlying handle id.
pub proof fn lemma_pool_reuse(s: Seq<OverlayHandle>)
    requires
        s.len() == 1,
        s[0].state is Idle,
    ensures
        !has_active(s),
        has_idle(s),
        forall|i: int| 0 <= i < s.len() && #[trigger] s[i].state is Idle ==> s[i].id == s[0].id,
{
}

proof fn lemma_handle_filter_push(
    s: Seq<OverlayHandle>,
    pred: spec_fn(OverlayHandle) -> bool,
    h: OverlayHandle,
)
    ensures
        s.push(h).filter(pred) == if pred(h) {
            s.filter(pred).push(h)
        } else {
            s.filter(pred)
        },
{
    reveal(Seq::filter);
    assert(s.push(h).drop_last() =~= s);
    assert(s.push(h).last() == h);
}

/// The pool of overlay window handles. At most one handle is `Active`;
/// the main window is hidden exactly while one is.
pub struct OverlayManager {
    handles: Vec<OverlayHandle>,
    next_id: u64,
    main_window_visible: bool,
}

impl View for OverlayManager {
    type V = Seq<OverlayHandle>;

    closed spec fn view(&self) -> Seq<OverlayHandle> {
        self.handles@
    }
}

impl OverlayManager {
    /// Whether the pool believes the main window is visible.
    pub closed spec fn main_visible(&self) -> bool {
        self.main_window_visible
    }

    /// The id the next newly built handle will get.
    pub closed spec fn upcoming_id(&self) -> u64 {
        self.next_id
    }

    /// Internal consistency: unique ids, at most one active handle, no
    /// handle left in `ClosingStale`, and the main window hidden exactly
    /// while an overlay is active.
    pub closed spec fn wf(&self) -> bool {
        &&& ids_unique(self@)
        &&& at_most_one_active(self@)
        &&& none_closing(self@)
        &&& (self.main_window_visible <==> !has_active(self@))
    }

    pub fn new() -> (m: Self)
        ensures
            m.wf(),
            m@ == Seq::<OverlayHandle>::empty(),
            m.main_visible(),
    {
        OverlayManager { handles: Vec::new(), next_id: 0, main_window_visible: true }
    }

    /// Index of the handle in the given state, if any.
    fn find_state(&self, want_idle: bool) -> (r: Option<usize>)
        ensures
            match r {
                Some(i) => 0 <= i < self@.len() && (if want_idle {
                    self@[i as int].state is Idle
                } else {
                    self@[i as int].state is Active
                }),
                None => if want_idle {
                    !has_idle(self@)
                } else {
                    !has_active(self@)
                },
            },
    {
        let mut i: usize = 0;
        while i < self.handles.len()
            invariant
                0 <= i <= self.handles.len(),
                self@.len() == self.handles.len(),
                forall|j: int|
                    0 <= j < i ==> (if want_idle {
                        !(#[trigger] self@[j].state is Idle)
                    } else {
                        !(self@[j].state is Active)
                    }),
            decreases self.handles.len() - i,
        {
            let hit = if want_idle {
                matches!(self.handles[i].state, HandleState::Idle)
            } else {
                matches!(self.handles[i].state, HandleState::Active)
            };
            if hit {
                return Some(i);
            }
            i = i + 1;
        }
        None
    }

    /// Activate an overlay: reuse the already active handle, else
    /// reactivate a pooled idle handle, else create a new full-screen
    /// handle. The main window is taken hidden before the overlay shows.
    pub fn show_selection_overlay(&mut self, screen_width: u32, screen_height: u32, now: u64) -> (d:
        ShowDirective)
        requires
            old(self).wf(),
        ensures
            final(self).wf(),
            !final(self).main_visible(),
            has_active(final(self)@),
            d.config == overlay_config(screen_width, screen_height),
            has_active(old(self)@) ==> d.reused && final(self)@ == old(self)@ && (exists|i: int|
                0 <= i < old(self)@.len() && #[trigger] old(self)@[i].state is Active
                    && d.handle_id == old(self)@[i].id),
            !has_active(old(self)@) && has_idle(old(self)@) ==> d.reused && (exists|i: int|
                0 <= i < old(self)@.len() && #[trigger] old(self)@[i].state is Idle && d.handle_id
                    == old(self)@[i].id && final(self)@ == old(self)@.update(
                    i,
                    (OverlayHandle { state: HandleState::Active, ..old(self)@[i] }),
                )),
            !has_active(old(self)@) && !has_idle(old(self)@) ==> !d.reused && d.handle_id == old(
                self,
            ).upcoming_id() && final(self)@ == old(self)@.push(
                (OverlayHandle {
                    id: old(self).upcoming_id(),
                    state: HandleState::Active,
                    created_at: now,
                }),
            ),
    {
        let config = OverlayConfig {
            x: 0,
            y: 0,
            width: screen_width,
            height: screen_height,
            transparent: true,
            click_through: true,
            shadow: false,
            always_on_top: true,
            decorations: false,
            skip_taskbar: true,
            resizable: false,
        };
        self.main_window_visible = false;
        match self.find_state(false) {
            Some(i) => {
                // an overlay is already up: reuse it as it is
                proof {
                    assert(self@ == old(self)@);
                    assert(self@[i as int].state is Active);
                    assert(has_active(self@));
                }
                ShowDirective { handle_id: self.handles[i].id, reused: true, config }
            },
            None => {
                match self.find_state(true) {
                    Some(i) => {
                        let h = self.handles[i];
                        self.handles[i] = OverlayHandle { state: HandleState::Active, ..h };
                        proof {
                            assert(self@[i as int].state is Active);
                            assert(has_active(self@));
                            assert forall|m: int, n: int| 0 <= m < n < self@.len() implies self@[m].id
                                != self@[n].id by {
                                assert(old(self)@[m].id == self@[m].id);
                                assert(old(self)@[n].id == self@[n].id);
                            }
                            assert forall|m: int, n: int|
                                0 <= m < n < self@.len() implies !(self@[m].state is Active
                                && self@[n].state is Active) by {
                                if m != i as int {
                                    assert(self@[m] == old(self)@[m]);
                                    if self@[m].state is Active {
                                        assert(has_active(old(self)@));
                                    }
                                }
                                if n != i as int {
                                    assert(self@[n] == old(self)@[n]);
                                    if self@[n].state is Active {
                                        assert(has_active(old(self)@));
                                    }
                                }
                            }
                            assert forall|m: int|
                                0 <= m < self@.len() implies !(#[trigger] self@[m].state
                                is ClosingStale) by {
                                if m != i as int {
                                    assert(self@[m] == old(self)@[m]);
                                }
                            }
                        }
                        ShowDirective { handle_id: h.id, reused: true, config }
                    },
                    None => {
                        // nothing pooled: with no active, no idle and no
                        // closing handle the pool is empty
                        proof {
                            if self@.len() > 0 {
                                assert(!(self@[0].state is Active));
                                assert(!(self@[0].state is Idle));
                                assert(!(self@[0].state is ClosingStale));
                            }
                            assert(self@.len() == 0);
                        }
                        let id = self.next_id;
                        self.next_id = if self.next_id < u64::MAX {
                            self.next_id + 1
                        } else {
                            self.next_id
                        };
                        let h = OverlayHandle { id, state: HandleState::Active, created_at: now };
                        self.handles.push(h);
                        proof {
                            assert(self@ =~= old(self)@.push(h));
                            assert(self@.len() == 1);
                            assert(self@[0] == h);
                            assert(has_active(self@));
                        }
                        ShowDirective { handle_id: id, reused: false, config }
                    },
                }
            },
        }
    }

    /// Periodic sweep: destroy every idle handle older than the staleness
    /// threshold, bounding the pool to recently used windows. The returned
    /// handles are marked `ClosingStale` and the window layer closes their
    /// windows. An `Active` handle is never destroyed.
    #[verifier::loop_isolation(false)]
    pub fn cleanup_if_old(&mut self, now: u64) -> (closed: Vec<OverlayHandle>)
        requires
            old(self).wf(),
        ensures
            final(self).wf(),
            final(self).main_visible() == old(self).main_visible(),
            final(self)@ == old(self)@.filter(|h: OverlayHandle| !is_stale_idle(h, now)),
            closed@ == old(self)@.filter(|h: OverlayHandle| is_stale_idle(h, now)).map_values(
                |h: OverlayHandle| OverlayHandle { state: HandleState::ClosingStale, ..h },
            ),
            forall|i: int|
                0 <= i < old(self)@.len() && #[trigger] old(self)@[i].state is Active ==> final(self)@.contains(old(self)@[i]),
    {
        let ghost orig = self@;
        let ghost keep_pred = |h: OverlayHandle| !is_stale_idle(h, now);
        let ghost stale_pred = |h: OverlayHandle| is_stale_idle(h, now);
        let ghost mark = |h: OverlayHandle| OverlayHandle { state: HandleState::ClosingStale, ..h };
        let mut closed: Vec<OverlayHandle> = Vec::new();
        let mut i: usize = 0;
        let ghost mut k: int = 0;
        while i < self.handles.len()
            invariant
                0 <= k <= orig.len(),
                i as int == orig.subrange(0, k).filter(keep_pred).len(),
                self@ == orig.subrange(0, k).filter(keep_pred) + orig.subrange(
                    k,
                    orig.len() as int,
                ),
                closed@ == orig.subrange(0, k).filter(stale_pred).map_values(mark),
                ids_unique(self@),
                at_most_one_active(self@),
                none_closing(self@),
                has_active(self@) <==> has_active(orig),
                self.main_window_visible == old(self).main_window_visible,
                self.next_id == old(self).next_id,
                forall|m: int|
                    0 <= m < orig.len() && #[trigger] orig[m].state is Active ==> self@.contains(
                        orig[m],
                    ),
            decreases orig.len() - k,
        {
            let ghost prev = self@;
            let ghost prev_closed = closed@;
            let ghost cur = orig[k];
            proof {
                assert(prev[i as int] == cur);
                assert(orig.subrange(0, k + 1) =~= orig.subrange(0, k).push(cur));
                lemma_handle_filter_push(orig.subrange(0, k), keep_pred, cur);
                lemma_handle_filter_push(orig.subrange(0, k), stale_pred, cur);
            }
            let idle = matches!(self.handles[i].state, HandleState::Idle);
            let stale = idle && ((now as u128) > (self.handles[i].created_at as u128) + (
            OVERLAY_STALE_SECS as u128));
            if stale {
                let h = self.handles.remove(i);
                closed.push(OverlayHandle { state: HandleState::ClosingStale, ..h });
                proof {
                    assert(self@ =~= prev.remove(i as int));
                    assert(closed@ =~= prev_closed.push(mark(cur)));
                    k = k + 1;
                    assert(self@ =~= orig.subrange(0, k).filter(keep_pred) + orig.subrange(
                        k,
                        orig.len() as int,
                    ));
                    assert(closed@ =~= orig.subrange(0, k).filter(stale_pred).map_values(mark));
                    assert forall|m: int, n: int| 0 <= m < n < self@.len() implies self@[m].id
                        != self@[n].id by {
                        let m0 = if m < i as int {
                            m
                        } else {
                            m + 1
                        };
                        let n0 = if n < i as int {
                            n
                        } else {
                            n + 1
                        };
                        assert(self@[m] == prev[m0] && self@[n] == prev[n0]);
                    }
                    assert forall|m: int, n: int|
                        0 <= m < n < self@.len() implies !(self@[m].state is Active
                        && self@[n].state is Active) by {
                        let m0 = if m < i as int {
                            m
                        } else {
                            m + 1
                        };
                        let n0 = if n < i as int {
                            n
                        } else {
                            n + 1
                        };
                        assert(self@[m] == prev[m0] && self@[n] == prev[n0]);
                    }
                    assert forall|m: int|
                        0 <= m < self@.len() implies !(#[trigger] self@[m].state
                        is ClosingStale) by {
                        let m0 = if m < i as int {
                            m
                        } else {
                            m + 1
                        };
                        assert(self@[m] == prev[m0]);
                    }
                    if has_active(self@) {
                        assert(has_active(orig));
                    }
                    assert forall|m: int|
                        0 <= m < orig.len() && #[trigger] orig[m].state is Active implies self@.contains(
                        orig[m],
                    ) by {
                        assert(prev.contains(orig[m]));
                        let w = choose|w: int| 0 <= w < prev.len() && prev[w] == orig[m];
                        assert(w != i as int);
                        let w2 = if w < i as int {
                            w
                        } else {
                            w - 1
                        };
                        assert(self@[w2] == orig[m]);
                    }
                    if has_active(orig) {
                        let w = choose|w: int| 0 <= w < orig.len() && orig[w].state is Active;
                        assert(self@.contains(orig[w]));
                        let w2 = choose|w2: int| 0 <= w2 < self@.len() && self@[w2] == orig[w];
                        assert(has_active(self@));
                    }
                }
            } else {
                i = i + 1;
                proof {
                    k = k + 1;
                    assert(self@ =~= orig.subrange(0, k).filter(keep_pred) + orig.subrange(
                        k,
                        orig.len() as int,
                    ));
                    assert(closed@ =~= orig.subrange(0, k).filter(stale_pred).map_values(mark));
                }
            }
        }
        proof {
            assert(orig.subrange(0, orig.len() as int) =~= orig);
            assert(self@ =~= orig.filter(keep_pred));
            assert(closed@ =~= orig.filter(stale_pred).map_values(mark));
        }
        closed
    }

    /// Deactivate the active overlay, keeping its window pooled for reuse,
    /// and signal that the main window is to be restored. With no active
    /// overlay this is a no-op that still succeeds and changes nothing.
    pub fn hide_overlay(&mut self) -> (r: Option<u64>)
        requires
            old(self).wf(),
        ensures
            final(self).wf(),
            final(self).main_visible(),
            !has_active(final(self)@),
            match r {
                Some(id) => exists|i: int|
                    0 <= i < old(self)@.len() && #[trigger] old(self)@[i].state is Active && id
                        == old(self)@[i].id && final(self)@ == old(self)@.update(
                        i,
                        (OverlayHandle { state: HandleState::Idle, ..old(self)@[i] }),
                    ),
                None => !has_active(old(self)@) && *final(self) == *old(self),
            },
    {
        match self.find_state(false) {
            Some(i) => {
                let h = self.handles[i];
                self.handles[i] = OverlayHandle { state: HandleState::Idle, ..h };
                self.main_window_visible = true;
                proof {
                    assert forall|m: int, n: int| 0 <= m < n < self@.len() implies self@[m].id
                        != self@[n].id by {
                        assert(old(self)@[m].id == self@[m].id);
                        assert(old(self)@[n].id == self@[n].id);
                    }
                    assert forall|m: int|
                        0 <= m < self@.len() implies !(#[trigger] self@[m].state is Active) by {
                        if m != i as int {
                            assert(self@[m] == old(self)@[m]);
                        }
                    }
                }
                Some(h.id)
            },
            None => None,
        }
    }
}

} // verus!
