//! When the overlay hides and comes back.
use vstd::prelude::*;

verus! {

/// The overlay stays as it is for this many ticks after the start.
pub const SETTLE_TICKS: u64 = 20;

/// The overlay hides once the game has been out of sight for this many ticks.
pub const HIDE_TICKS: u64 = 3;

/// Positions are kept every so many ticks.
pub const KEEP_TICKS: u64 = 10;

/// What can be seen of the game and of the overlay.
#[derive(Debug, Clone, Copy)]
pub struct OverlayView {
    pub game_in_front: bool,
    pub overlay_in_front: bool,
    pub visible: bool,
    pub minimised: bool,
}

impl OverlayView {
    /// Whether the game or the overlay itself is in front.
    pub open spec fn in_use(self) -> bool {
        self.game_in_front || self.overlay_in_front
    }

    /// Whether the overlay can be seen.
    pub open spec fn in_sight(self) -> bool {
        self.visible && !self.minimised
    }
}

/// What is to be done with the overlay.
#[derive(Debug, Clone, Copy, PartialEq, Eq, Structural)]
pub enum OverlayAction {
    /// Nothing.
    Keep,
    /// Bring it back, and have it measure itself anew.
    Reveal,
    /// Take it off the top and minimise it.
    Minimise,
}

/// What a tick asks for.
#[derive(Debug, Clone, Copy, PartialEq, Eq, Structural)]
pub struct Tick {
    pub action: OverlayAction,
    pub keep_positions: bool,
}

/// How many ticks have passed, and for how many of them the game has been out of sight.
#[derive(Debug, Clone, Copy, PartialEq, Eq, Structural)]
pub struct Overlay {
    pub ticks: u64,
    pub hide_delay: u64,
}

impl Overlay {
    /// Whether the overlay hides by itself at the next tick. Ticks are machine integers: they
    /// wrap.
    pub open spec fn hides_itself(self, auto_hide: bool) -> bool {
        auto_hide && self.ticks.wrapping_add(1) > SETTLE_TICKS
    }

    /// For how long the game has been out of sight after the next tick.
    pub open spec fn delay_after(self, auto_hide: bool, view: Option<OverlayView>) -> u64 {
        match view {
            Some(v) if self.hides_itself(auto_hide) => if v.in_use() {
                0
            } else if v.in_sight() {
                self.hide_delay.wrapping_add(1)
            } else {
                self.hide_delay
            },
            _ => self.hide_delay,
        }
    }

    /// What the next tick does with the overlay.
    pub open spec fn action_at(self, auto_hide: bool, view: Option<OverlayView>) -> OverlayAction {
        match view {
            Some(v) if self.hides_itself(auto_hide) => if v.in_use() {
                if v.in_sight() {
                    OverlayAction::Keep
                } else {
                    OverlayAction::Reveal
                }
            } else if v.in_sight() && self.delay_after(auto_hide, view) >= HIDE_TICKS {
                OverlayAction::Minimise
            } else {
                OverlayAction::Keep
            },
            _ => OverlayAction::Keep,
        }
    }

    /// The overlay after the next tick.
    pub open spec fn ticked(self, auto_hide: bool, view: Option<OverlayView>) -> Self {
        Overlay {
            ticks: self.ticks.wrapping_add(1),
            hide_delay: self.delay_after(auto_hide, view),
        }
    }

    /// An overlay that has just been started.
    pub fn new() -> (r: Self)
        ensures
            r == (Overlay { ticks: 0, hide_delay: 0 }),
    {
        Overlay { ticks: 0, hide_delay: 0 }
    }

    /// Takes in a tick, and says what it asks for. There is nothing to see where the overlay's
    /// window is gone.
    pub fn tick(&mut self, auto_hide: bool, view: Option<OverlayView>) -> (r: Tick)
        ensures
            *final(self) == old(self).ticked(auto_hide, view),
            r.action == old(self).action_at(auto_hide, view),
            r.keep_positions == (final(self).ticks % KEEP_TICKS == 0),
    {
        self.ticks = self.ticks.wrapping_add(1);
        let keep_positions = self.ticks % KEEP_TICKS == 0;
        let mut action = OverlayAction::Keep;
        if auto_hide && self.ticks > SETTLE_TICKS {
            match view {
                Some(v) => {
                    if v.game_in_front || v.overlay_in_front {
                        self.hide_delay = 0;
                        if !v.visible || v.minimised {
                            action = OverlayAction::Reveal;
                        }
                    } else if v.visible && !v.minimised {
                        self.hide_delay = self.hide_delay.wrapping_add(1);
                        if self.hide_delay >= HIDE_TICKS {
                            action = OverlayAction::Minimise;
                        }
                    }
                },
                None => {},
            }
        }
        Tick { action, keep_positions }
    }
}

/// A short switch to another window does not hide the overlay: from the last tick at which the
/// game or the overlay was in front, it is the third one without that hides it, and neither the
/// first nor the second.
pub proof fn law_short_switches_do_not_hide(
    o: Overlay,
    front: OverlayView,
    first: OverlayView,
    second: OverlayView,
    third: OverlayView,
)
    requires
        SETTLE_TICKS <= o.ticks < u64::MAX - 4,
        front.in_use(),
        !first.in_use() && first.in_sight(),
        !second.in_use() && second.in_sight(),
        !third.in_use() && third.in_sight(),
    ensures
        ({
            let a = o.ticked(true, Some(front));
            let b = a.ticked(true, Some(first));
            let c = b.ticked(true, Some(second));
            &&& a.action_at(true, Some(first)) == OverlayAction::Keep
            &&& b.action_at(true, Some(second)) == OverlayAction::Keep
            &&& c.action_at(true, Some(third)) == OverlayAction::Minimise
        }),
{
}

/// The overlay comes back as soon as the game is in front, and stays as it is while the setting is
/// off.
pub proof fn law_overlay_comes_back_with_the_game(o: Overlay, view: OverlayView)
    ensures
        o.action_at(false, Some(view)) == OverlayAction::Keep,
        view.in_use() ==> o.action_at(true, Some(view)) != OverlayAction::Minimise,
        SETTLE_TICKS <= o.ticks < u64::MAX && view.in_use() && !view.in_sight() ==> o.action_at(
            true,
            Some(view),
        ) == OverlayAction::Reveal,
{
}

} // verus!
