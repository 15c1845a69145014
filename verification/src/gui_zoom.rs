//! Zoom level bookkeeping for an interactive review of match groups.
//!
//! A zoom is either a user-chosen magnification, stepped up and down inside
//! a fixed range, or the native resolution of the reviewed frames.

use vstd::prelude::*;

verus! {

/// The zoom a viewer should apply: a user magnification or native size.
#[derive(Debug, Clone, Copy, PartialEq, Eq, Structural)]
pub enum ZoomValue {
    User(u32),
    Native,
}

/// A stepped magnification range: `current` always stays inside
/// `[min, max]` and every bound is a multiple of `increment`.
#[derive(Debug, Clone, Copy, PartialEq, Eq, Structural)]
pub struct ZoomRange {
    pub min: u32,
    pub max: u32,
    pub increment: u32,
    pub current: u32,
}

impl ZoomRange {
    pub open spec fn wf(self) -> bool {
        &&& self.min <= self.current <= self.max
        &&& self.increment > 0
        &&& self.max % self.increment == 0
        &&& self.min % self.increment == 0
    }

    pub fn new(min: u32, max: u32, increment: u32, start: u32) -> (r: Self)
        requires
            increment > 0,
            max % increment == 0,
            min % increment == 0,
            start % increment == 0,
            min <= start <= max,
        ensures
            r.wf(),
            r.current == start,
            r.min == min,
            r.max == max,
            r.increment == increment,
    {
        Self { min, max, increment, current: start }
    }

    pub fn get(&self) -> (r: u32)
        ensures
            r == self.current,
    {
        self.current
    }

    /// The value `zoom_in` steps to: one increment up, saturating at `max`.
    pub open spec fn zoomed_in(self) -> Self {
        ZoomRange {
            current: if self.current + self.increment <= self.max {
                (self.current + self.increment) as u32
            } else {
                self.max
            },
            ..self
        }
    }

    /// The value `zoom_out` steps to: one increment down, saturating at `min`.
    pub open spec fn zoomed_out(self) -> Self {
        ZoomRange {
            current: if self.current - self.increment >= self.min {
                (self.current - self.increment) as u32
            } else {
                self.min
            },
            ..self
        }
    }

    /// Step the magnification up by one increment, saturating at `max`.
    pub fn zoom_in(&self) -> (r: Self)
        requires
            self.wf(),
        ensures
            r.wf(),
            r == self.zoomed_in(),
    {
        Self {
            max: self.max,
            min: self.min,
            increment: self.increment,
            current: if self.increment <= self.max && self.current <= self.max - self.increment {
                self.current + self.increment
            } else {
                self.max
            },
        }
    }

    /// Step the magnification down by one increment, saturating at `min`.
    pub fn zoom_out(&self) -> (r: Self)
        requires
            self.wf(),
        ensures
            r.wf(),
            r == self.zoomed_out(),
    {
        Self {
            max: self.max,
            min: self.min,
            increment: self.increment,
            current: if self.current >= self.increment && self.current - self.increment >= self.min {
                self.current - self.increment
            } else {
                self.min
            },
        }
    }
}

/// A zoom range together with a flag that pins the zoom to native size.
#[derive(Debug, Clone, Copy, PartialEq, Eq, Structural)]
pub struct ZoomState {
    pub user: ZoomRange,
    pub native: bool,
}

impl ZoomState {
    pub open spec fn wf(self) -> bool {
        self.user.wf()
    }

    pub fn new(min: u32, max: u32, increment: u32, start: u32) -> (r: Self)
        requires
            increment > 0,
            max % increment == 0,
            min % increment == 0,
            start % increment == 0,
            min <= start <= max,
        ensures
            r.wf(),
            !r.native,
            r.user.current == start,
    {
        Self { user: ZoomRange::new(min, max, increment, start), native: false }
    }

    /// In native mode zooming is a no-op; otherwise step the range up.
    pub fn zoom_in(&self) -> (r: Self)
        requires
            self.wf(),
        ensures
            r.wf(),
            r.native == self.native,
            self.native ==> r == *self,
            !self.native ==> r.user == self.user.zoomed_in(),
    {
        if self.native {
            *self
        } else {
            Self { user: self.user.zoom_in(), native: self.native }
        }
    }

    /// In native mode zooming is a no-op; otherwise step the range down.
    pub fn zoom_out(&self) -> (r: Self)
        requires
            self.wf(),
        ensures
            r.wf(),
            r.native == self.native,
            self.native ==> r == *self,
            !self.native ==> r.user == self.user.zoomed_out(),
    {
        if self.native {
            *self
        } else {
            Self { user: self.user.zoom_out(), native: self.native }
        }
    }

    pub fn set_native(&self, val: bool) -> (r: Self)
        ensures
            r.user == self.user,
            r.native == val,
    {
        Self { user: self.user, native: val }
    }

    pub fn get(&self) -> (r: ZoomValue)
        ensures
            r == if self.native {
                ZoomValue::Native
            } else {
                ZoomValue::User(self.user.current)
            },
    {
        if self.native {
            ZoomValue::Native
        } else {
            ZoomValue::User(self.user.get())
        }
    }
}

} // verus!
