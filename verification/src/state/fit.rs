//! Windows fitted to the view, and windows that fill the space around them: what
//! is kept to take them back.

use crate::geometry::{Point, Size};
use crate::text::same_text;
use vstd::prelude::*;

verus! {

/// Whether a window is fitted to the view, and the size it had before.
#[derive(Clone, Copy, Debug, PartialEq, Eq, Structural)]
pub struct FitState {
    pub saved: Option<Size>,
}

/// What toggling leads to.
#[derive(Clone, Copy, Debug, PartialEq, Eq, Structural)]
pub enum FitStep {
    /// Nothing.
    Stay,
    /// The window is fitted to the view.
    Fit,
    /// The window gets a size back.
    Restore(Size),
}

impl FitState {
    /// The state after toggling, and what that leads to.
    pub open spec fn toggled(self, widget: bool, size: Size) -> (FitState, FitStep) {
        match self.saved {
            Some(s) => (FitState { saved: None }, FitStep::Restore(s)),
            None => if widget {
                (self, FitStep::Stay)
            } else {
                (FitState { saved: Some(size) }, FitStep::Fit)
            },
        }
    }

    pub fn is_fit(&self) -> (r: bool)
        ensures
            r == (self.saved is Some),
    {
        self.saved.is_some()
    }

    pub fn clear_fit_state(&mut self)
        ensures
            final(self).saved is None,
    {
        self.saved = None;
    }

    /// Fits a window to the view, unless it is a widget. Its size is kept.
    pub fn fit_window(&mut self, widget: bool, size: Size) -> (step: FitStep)
        ensures
            widget ==> step is Stay && *final(self) == *old(self),
            !widget ==> step is Fit && final(self).saved == Some(size),
    {
        if widget {
            return FitStep::Stay;
        }
        self.saved = Some(size);
        FitStep::Fit
    }

    /// Gives a fitted window back the size it had.
    pub fn unfit_window(&mut self) -> (step: FitStep)
        ensures
            final(self).saved is None,
            step == match old(self).saved {
                Some(s) => FitStep::Restore(s),
                None => FitStep::Stay,
            },
    {
        match self.saved {
            Some(s) => {
                self.saved = None;
                FitStep::Restore(s)
            },
            None => FitStep::Stay,
        }
    }

    /// Fits a window that is not fitted, and takes back one that is.
    pub fn toggle_fit_window(&mut self, widget: bool, size: Size) -> (step: FitStep)
        ensures
            (*final(self), step) == old(self).toggled(widget, size),
    {
        if self.is_fit() {
            self.unfit_window()
        } else {
            self.fit_window(widget, size)
        }
    }
}

/// What a window that fills the space around it goes back to.
pub struct FillSaved {
    pub pre_fill_position: Point,
    pub pre_fill_size: Size,
    /// The output whose view it was made to fill.
    pub viewport_output: String,
    /// Where filling put it.
    pub filled_at: Point,
}

/// The place and size that filling gives a window.
#[derive(Clone, Copy, Debug, PartialEq, Eq, Structural)]
pub struct FillTarget {
    pub loc: Point,
    pub size: Size,
}

/// A size constraint of a window's content as one of its frame; 0, which is no
/// constraint, stays.
pub fn inflate_constraint(v: i32, extra: i32) -> (r: i32)
    requires
        v > 0 ==> v + extra <= i32::MAX && v + extra >= i32::MIN,
    ensures
        r == if v > 0 {
            v + extra
        } else {
            0
        },
{
    if v > 0 {
        v + extra
    } else {
        0
    }
}

/// Where filling puts a window: nowhere if it is there. No side is less than a
/// pixel.
pub fn compute_fill_geometry(loc: Point, w: i32, h: i32, now_loc: Point, now_size: Size) -> (t:
    Option<FillTarget>)
    ensures
        ({
            let size = Size {
                w: if w < 1 {
                    1
                } else {
                    w
                },
                h: if h < 1 {
                    1
                } else {
                    h
                },
            };
            t == if size == now_size && loc == now_loc {
                None
            } else {
                Some(FillTarget { loc, size })
            }
        }),
{
    let size = Size {
        w: if w < 1 {
            1
        } else {
            w
        },
        h: if h < 1 {
            1
        } else {
            h
        },
    };
    if size == now_size && loc == now_loc {
        None
    } else {
        Some(FillTarget { loc, size })
    }
}

/// What toggling a window's fill leads to.
#[derive(Clone, Copy, Debug, PartialEq, Eq, Structural)]
pub enum FillStep {
    Stay,
    /// The window gets this place and size.
    Fill(FillTarget),
    /// It goes back to this one.
    Restore(FillTarget),
}

/// A window's fill.
pub struct FillState {
    pub saved: Option<FillSaved>,
}

/// What is known of a window that is to fill the space around it.
#[derive(Clone, Copy, Debug, PartialEq, Eq, Structural)]
pub struct FillWindow {
    pub pinned: bool,
    pub widget: bool,
    /// The size it goes back to, if one is kept.
    pub restore_size: Option<Size>,
    pub size: Size,
    pub position: Option<Point>,
    /// Where a window of the size before the fit has the same centre.
    pub pre_fit_position: Point,
}

impl FillWindow {
    /// The size to go back to: that of a fitted window is the one it had before.
    pub open spec fn saved_size(self, fit: FitState) -> Size {
        match fit.saved {
            Some(s) => s,
            None => match self.restore_size {
                Some(s) => s,
                None => self.size,
            },
        }
    }

    /// The place to go back to. That of a fitted window goes with the size that
    /// it had before.
    pub open spec fn saved_position(self, fit: FitState) -> Point {
        if fit.saved is Some {
            self.pre_fit_position
        } else {
            self.position->0
        }
    }

    /// The window can fill the space around it.
    pub open spec fn may_fill(self) -> bool {
        !self.pinned && !self.widget && self.position is Some
    }
}

impl FillSaved {
    /// What is kept of a window that fills `target`.
    pub open spec fn keeps(
        self,
        window: FillWindow,
        fit: FitState,
        target: FillTarget,
        output: Seq<char>,
    ) -> bool {
        &&& self.pre_fill_size == window.saved_size(fit)
        &&& self.pre_fill_position == window.saved_position(fit)
        &&& self.viewport_output@ == output
        &&& self.filled_at == target.loc
    }

    /// Where the window goes back to.
    pub open spec fn back(self) -> FillTarget {
        FillTarget { loc: self.pre_fill_position, size: self.pre_fill_size }
    }
}

impl FillState {
    pub fn is_fill(&self) -> (r: bool)
        ensures
            r == (self.saved is Some),
    {
        self.saved.is_some()
    }

    /// Makes a window fill the space around it. A pinned window and a widget do
    /// not, nor does one that fills it already. What it goes back to is kept;
    /// it is then no longer fitted to the view.
    pub fn fill_window(
        &mut self,
        fit: &mut FitState,
        window: &FillWindow,
        target: Option<FillTarget>,
        output: &str,
    ) -> (fill: Option<FillTarget>)
        ensures
            fill == if window.may_fill() {
                target
            } else {
                None
            },
            fill is None ==> *final(self) == *old(self) && *final(fit) == *old(fit),
            fill matches Some(t) ==> {
                &&& final(fit).saved is None
                &&& final(self).saved matches Some(s)
                &&& s.keeps(*window, *old(fit), t, output@)
            },
    {
        if window.pinned || window.widget {
            return None;
        }
        let position = match window.position {
            Some(p) => p,
            None => {
                return None;
            },
        };
        let t = match target {
            Some(t) => t,
            None => {
                return None;
            },
        };
        let size = match fit.saved {
            Some(s) => s,
            None => match window.restore_size {
                Some(s) => s,
                None => window.size,
            },
        };
        let at = if fit.is_fit() {
            window.pre_fit_position
        } else {
            position
        };
        self.saved =
        Some(
            FillSaved {
                pre_fill_position: at,
                pre_fill_size: size,
                viewport_output: output.to_owned(),
                filled_at: t.loc,
            },
        );
        fit.clear_fit_state();
        Some(t)
    }

    /// Takes a window back to the place and size it had before it filled the
    /// space around it.
    pub fn unfill_window(&mut self) -> (back: Option<FillTarget>)
        ensures
            final(self).saved is None,
            back == match old(self).saved {
                Some(s) => Some(s.back()),
                None => None,
            },
    {
        let mut saved: Option<FillSaved> = None;
        std::mem::swap(&mut saved, &mut self.saved);
        match saved {
            Some(s) => Some(FillTarget { loc: s.pre_fill_position, size: s.pre_fill_size }),
            None => None,
        }
    }

    /// Makes a window fill the space around it, or takes one that does back.
    pub fn toggle_fill_window(
        &mut self,
        fit: &mut FitState,
        window: &FillWindow,
        target: Option<FillTarget>,
        output: &str,
    ) -> (step: FillStep)
        ensures
            match old(self).saved {
                Some(s) => {
                    &&& final(self).saved is None
                    &&& *final(fit) == *old(fit)
                    &&& step == FillStep::Restore(s.back())
                },
                None => if window.may_fill() && target is Some {
                    &&& step == FillStep::Fill(target->0)
                    &&& final(fit).saved is None
                    &&& final(self).saved matches Some(s)
                    &&& s.keeps(*window, *old(fit), target->0, output@)
                } else {
                    step is Stay && *final(self) == *old(self) && *final(fit) == *old(fit)
                },
            },
    {
        if self.is_fill() {
            match self.unfill_window() {
                Some(back) => FillStep::Restore(back),
                None => FillStep::Stay,
            }
        } else {
            match self.fill_window(fit, window, target, output) {
                Some(t) => FillStep::Fill(t),
                None => FillStep::Stay,
            }
        }
    }

    /// Whether the view that a window was made to fill still applies on an
    /// output: it is that output's, the window has not been moved since, and the
    /// output has room to show anything.
    pub fn fill_restore_view(&self, output: &str, position: Option<Point>, usable: Size) -> (
        applies: bool)
        ensures
            applies == match self.saved {
                None => false,
                Some(s) => s.viewport_output@ == output@ && position == Some(s.filled_at)
                    && usable.w > 0 && usable.h > 0,
            },
    {
        match &self.saved {
            None => false,
            Some(s) => {
                let there = match position {
                    Some(p) => p == s.filled_at,
                    None => false,
                };
                same_text(s.viewport_output.as_str(), output) && there && usable.w > 0 && usable.h
                    > 0
            },
        }
    }
}

/// Toggling twice takes a window back: it is not fitted, and gets the size that
/// it had, whatever size it has meanwhile.
pub proof fn law_unfit_undoes_fit(state: FitState, size: Size, fitted: Size)
    requires
        state.saved is None,
    ensures
        state.toggled(false, size).0.toggled(false, fitted) == (state, FitStep::Restore(size)),
{
}

/// A window that stops filling the space around it gets back the place and size
/// that it had. One that was fitted to the view when it began gets those from
/// before the fit: the fitted size is not handed back.
pub proof fn law_unfill_undoes_fill(
    kept: FillSaved,
    window: FillWindow,
    fit: FitState,
    target: FillTarget,
    output: Seq<char>,
)
    requires
        window.may_fill(),
        kept.keeps(window, fit, target, output),
    ensures
        fit.saved is None && window.restore_size is None ==> kept.back() == (FillTarget {
            loc: window.position->0,
            size: window.size,
        }),
        fit.saved matches Some(size) ==> kept.back() == (FillTarget {
            loc: window.pre_fit_position,
            size,
        }),
{
}

/// Toggling fits a window that is not fitted and keeps its size, unless it is a
/// widget, which stays as it is; one that is fitted gets back the size that was
/// kept, widget or not.
pub proof fn law_toggling_fits_or_restores(state: FitState, widget: bool, size: Size)
    ensures
        ({
            let (after, step) = state.toggled(widget, size);
            &&& step is Fit <==> state.saved is None && !widget
            &&& step is Fit ==> after.saved == Some(size)
            &&& step is Stay <==> state.saved is None && widget
            &&& step is Stay ==> after == state
            &&& step matches FitStep::Restore(back) ==> state.saved == Some(back)
                && after.saved is None
        }),
{
}

/// A window fills the space around it only if it has a place and is neither pinned
/// nor a widget. The size it goes back to is the one from before a fit, else the
/// one that is kept for it, else its own.
pub proof fn law_fill_keeps_the_way_back(
    kept: FillSaved,
    window: FillWindow,
    fit: FitState,
    target: FillTarget,
    output: Seq<char>,
)
    requires
        kept.keeps(window, fit, target, output),
    ensures
        window.may_fill() <==> window.position is Some && !(window.pinned || window.widget),
        kept.filled_at == target.loc,
        kept.viewport_output@ == output,
        kept.back().size == kept.pre_fill_size && kept.back().loc == kept.pre_fill_position,
        fit.saved is Some ==> kept.back().size == fit.saved->0,
        fit.saved is None && window.restore_size is Some ==> kept.back().size
            == window.restore_size->0,
        fit.saved is None && window.restore_size is None ==> kept.back().size == window.size,
        fit.saved is None && window.position is Some ==> kept.back().loc == window.position->0,
{
}

} // verus!
