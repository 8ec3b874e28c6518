//! What the mouse does to a chart: dragging an axis, and which part of a chart an event goes to.
use crate::float_bits::F32Bits;
use vstd::prelude::*;

verus! {

/// A place on the screen, carried as it comes.
#[derive(Debug, Clone, Copy, PartialEq, Eq, Structural)]
pub struct Spot {
    pub x: F32Bits,
    pub y: F32Bits,
}

/// What the mouse is doing on a chart.
#[derive(Debug, Clone, Copy, PartialEq, Eq, Structural)]
pub enum Interaction {
    Idle,
    Zoomin { last_position: Spot },
    Panning { last_position: Spot },
    Ruler,
}

/// A mouse event on an axis.
#[derive(Debug, Clone, Copy, PartialEq, Eq, Structural)]
pub enum AxisEvent {
    Released,
    /// The left button was pressed; `inside` says that it was on the part that can be dragged,
    /// `at` is where the cursor is.
    Pressed { inside: bool, at: Option<Spot> },
    /// The cursor moved; `far` says that it is more than a pixel from where the drag last was.
    Moved { at: Option<Spot>, far: bool },
    Scrolled { inside: bool },
    Other,
}

/// What an axis asks its chart to do.
#[derive(Debug, Clone, Copy, PartialEq, Eq, Structural)]
pub enum AxisAction {
    Nothing,
    /// Scale by the distance from one place to another.
    ScaleByDrag { from: Spot, to: Spot },
    /// Scale by the wheel around the cursor.
    ScaleByWheel,
}

/// The state and the action after an event on an axis.
pub open spec fn axis_step(state: Interaction, event: AxisEvent) -> (Interaction, AxisAction) {
    match event {
        AxisEvent::Released => (Interaction::Idle, AxisAction::Nothing),
        AxisEvent::Pressed { inside, at } => match at {
            Some(p) if inside => (Interaction::Zoomin { last_position: p }, AxisAction::Nothing),
            _ => (state, AxisAction::Nothing),
        },
        AxisEvent::Moved { at, far } => match (state, at) {
            (Interaction::Zoomin { last_position }, Some(p)) if far => (
                Interaction::Zoomin { last_position: p },
                AxisAction::ScaleByDrag { from: last_position, to: p },
            ),
            _ => (state, AxisAction::Nothing),
        },
        AxisEvent::Scrolled { inside } => (
            state,
            if inside {
                AxisAction::ScaleByWheel
            } else {
                AxisAction::Nothing
            },
        ),
        AxisEvent::Other => (state, AxisAction::Nothing),
    }
}

impl Interaction {
    /// Takes in an event on an axis.
    pub fn on_axis_event(&mut self, event: AxisEvent) -> (action: AxisAction)
        ensures
            (*final(self), action) == axis_step(*old(self), event),
    {
        match event {
            AxisEvent::Released => {
                *self = Interaction::Idle;
                AxisAction::Nothing
            },
            AxisEvent::Pressed { inside, at } => {
                if inside {
                    if let Some(p) = at {
                        *self = Interaction::Zoomin { last_position: p };
                    }
                }
                AxisAction::Nothing
            },
            AxisEvent::Moved { at, far } => {
                match (*self, at) {
                    (Interaction::Zoomin { last_position }, Some(p)) => {
                        if far {
                            *self = Interaction::Zoomin { last_position: p };
                            AxisAction::ScaleByDrag { from: last_position, to: p }
                        } else {
                            AxisAction::Nothing
                        }
                    },
                    _ => AxisAction::Nothing,
                }
            },
            AxisEvent::Scrolled { inside } => if inside {
                AxisAction::ScaleByWheel
            } else {
                AxisAction::Nothing
            },
            AxisEvent::Other => AxisAction::Nothing,
        }
    }

    /// The cursor over the plot.
    pub fn plot_cursor(&self, over: bool) -> (c: CursorShape)
        ensures
            c == (match self {
                Interaction::Panning { .. } => CursorShape::Grabbing,
                Interaction::Zoomin { .. } => CursorShape::ZoomIn,
                _ => if over {
                    CursorShape::Crosshair
                } else {
                    CursorShape::Plain
                },
            }),
    {
        match self {
            Interaction::Panning { .. } => CursorShape::Grabbing,
            Interaction::Zoomin { .. } => CursorShape::ZoomIn,
            _ => if over {
                CursorShape::Crosshair
            } else {
                CursorShape::Plain
            },
        }
    }

    /// The cursor over an axis, which is resized along itself.
    pub fn axis_cursor(&self, over: bool) -> (c: CursorShape)
        ensures
            c == (match self {
                Interaction::Zoomin { .. } => CursorShape::Resizing,
                Interaction::Panning { .. } => CursorShape::Hidden,
                Interaction::Idle => if over {
                    CursorShape::Resizing
                } else {
                    CursorShape::Plain
                },
                Interaction::Ruler => CursorShape::Plain,
            }),
    {
        match self {
            Interaction::Zoomin { .. } => CursorShape::Resizing,
            Interaction::Panning { .. } => CursorShape::Hidden,
            Interaction::Idle => if over {
                CursorShape::Resizing
            } else {
                CursorShape::Plain
            },
            Interaction::Ruler => CursorShape::Plain,
        }
    }
}

/// What the cursor looks like.
#[derive(Debug, Clone, Copy, PartialEq, Eq, Structural)]
pub enum CursorShape {
    Plain,
    Crosshair,
    Grabbing,
    ZoomIn,
    Resizing,
    Hidden,
}

/// An axis is scaled by dragging only after it was pressed, and no more once it was released.
pub proof fn only_drags_scale(state: Interaction, event: AxisEvent)
    requires
        axis_step(state, event).1 is ScaleByDrag,
    ensures
        state is Zoomin,
        axis_step(state, AxisEvent::Released).0 is Idle,
{
}

/// What the mouse is doing on an axis of the heatmap.
#[derive(Debug, Clone, Copy, PartialEq, Eq, Structural)]
pub enum AxisInteraction {
    Idle,
    Panning { last_position: Spot },
}

/// A mouse event on the price axis of the heatmap.
#[derive(Debug, Clone, Copy, PartialEq, Eq, Structural)]
pub enum PriceAxisEvent {
    /// The left button was pressed over the axis at `at`, if it was; `double` says that this was
    /// the second of two clicks.
    Pressed { at: Option<Spot>, double: bool },
    Released,
    Moved { at: Spot },
    Scrolled { inside: bool },
    Other,
}

/// What the price axis asks the heatmap to do.
#[derive(Debug, Clone, Copy, PartialEq, Eq, Structural)]
pub enum PriceAxisAction {
    Nothing,
    Reset,
    ZoomByDrag { from: Spot, to: Spot },
    ZoomByWheel,
}

/// The state and the action after an event on the price axis.
pub open spec fn price_axis_step(state: AxisInteraction, event: PriceAxisEvent) -> (
    AxisInteraction,
    PriceAxisAction,
) {
    match event {
        PriceAxisEvent::Pressed { at: None, .. } => (state, PriceAxisAction::Nothing),
        PriceAxisEvent::Pressed { at: Some(p), double } => if double {
            (AxisInteraction::Idle, PriceAxisAction::Reset)
        } else {
            (AxisInteraction::Panning { last_position: p }, PriceAxisAction::Nothing)
        },
        PriceAxisEvent::Released => (AxisInteraction::Idle, PriceAxisAction::Nothing),
        PriceAxisEvent::Moved { at } => match state {
            AxisInteraction::Panning { last_position } => (
                AxisInteraction::Panning { last_position: at },
                PriceAxisAction::ZoomByDrag { from: last_position, to: at },
            ),
            AxisInteraction::Idle => (state, PriceAxisAction::Nothing),
        },
        PriceAxisEvent::Scrolled { inside } => (
            state,
            if inside {
                PriceAxisAction::ZoomByWheel
            } else {
                PriceAxisAction::Nothing
            },
        ),
        PriceAxisEvent::Other => (state, PriceAxisAction::Nothing),
    }
}

impl AxisInteraction {
    /// Takes in an event on the price axis.
    pub fn on_price_axis_event(&mut self, event: PriceAxisEvent) -> (action: PriceAxisAction)
        ensures
            (*final(self), action) == price_axis_step(*old(self), event),
    {
        match event {
            PriceAxisEvent::Pressed { at, double } => {
                match at {
                    None => PriceAxisAction::Nothing,
                    Some(p) => if double {
                        *self = AxisInteraction::Idle;
                        PriceAxisAction::Reset
                    } else {
                        *self = AxisInteraction::Panning { last_position: p };
                        PriceAxisAction::Nothing
                    },
                }
            },
            PriceAxisEvent::Released => {
                *self = AxisInteraction::Idle;
                PriceAxisAction::Nothing
            },
            PriceAxisEvent::Moved { at } => {
                match *self {
                    AxisInteraction::Panning { last_position } => {
                        *self = AxisInteraction::Panning { last_position: at };
                        PriceAxisAction::ZoomByDrag { from: last_position, to: at }
                    },
                    AxisInteraction::Idle => PriceAxisAction::Nothing,
                }
            },
            PriceAxisEvent::Scrolled { inside } => if inside {
                PriceAxisAction::ZoomByWheel
            } else {
                PriceAxisAction::Nothing
            },
            PriceAxisEvent::Other => PriceAxisAction::Nothing,
        }
    }
}

/// A mouse event on the plot of the heatmap.
#[derive(Debug, Clone, Copy, PartialEq, Eq, Structural)]
pub enum PlotEvent {
    /// The left button was pressed over the plot at `at`, if it was.
    Pressed { at: Option<Spot> },
    Released,
    /// The cursor moved; `over` says that it is over the plot.
    Moved { at: Spot, over: bool },
    Scrolled { inside: bool },
    Other,
}

/// What the plot asks the heatmap to do.
#[derive(Debug, Clone, Copy, PartialEq, Eq, Structural)]
pub enum PlotAction {
    Nothing,
    Pan { from: Spot, to: Spot },
    ZoomByWheel,
}

/// The state and the action after an event on the plot. A drag does not follow the cursor while it
/// is off the plot.
pub open spec fn plot_step(state: AxisInteraction, event: PlotEvent) -> (
    AxisInteraction,
    PlotAction,
) {
    match event {
        PlotEvent::Pressed { at } => match at {
            Some(p) => (AxisInteraction::Panning { last_position: p }, PlotAction::Nothing),
            None => (state, PlotAction::Nothing),
        },
        PlotEvent::Released => (AxisInteraction::Idle, PlotAction::Nothing),
        PlotEvent::Moved { at, over } => match state {
            AxisInteraction::Panning { last_position } if over => (
                AxisInteraction::Panning { last_position: at },
                PlotAction::Pan { from: last_position, to: at },
            ),
            _ => (state, PlotAction::Nothing),
        },
        PlotEvent::Scrolled { inside } => (
            state,
            if inside {
                PlotAction::ZoomByWheel
            } else {
                PlotAction::Nothing
            },
        ),
        PlotEvent::Other => (state, PlotAction::Nothing),
    }
}

impl AxisInteraction {
    /// Takes in an event on the plot.
    pub fn on_plot_event(&mut self, event: PlotEvent) -> (action: PlotAction)
        ensures
            (*final(self), action) == plot_step(*old(self), event),
    {
        match event {
            PlotEvent::Pressed { at } => {
                if let Some(p) = at {
                    *self = AxisInteraction::Panning { last_position: p };
                }
                PlotAction::Nothing
            },
            PlotEvent::Released => {
                *self = AxisInteraction::Idle;
                PlotAction::Nothing
            },
            PlotEvent::Moved { at, over } => {
                match *self {
                    AxisInteraction::Panning { last_position } => if over {
                        *self = AxisInteraction::Panning { last_position: at };
                        PlotAction::Pan { from: last_position, to: at }
                    } else {
                        PlotAction::Nothing
                    },
                    AxisInteraction::Idle => PlotAction::Nothing,
                }
            },
            PlotEvent::Scrolled { inside } => if inside {
                PlotAction::ZoomByWheel
            } else {
                PlotAction::Nothing
            },
            PlotEvent::Other => PlotAction::Nothing,
        }
    }
}

/// A part of the heatmap that takes events.
#[derive(Debug, Clone, Copy, PartialEq, Eq, Structural)]
pub enum Target {
    XAxis,
    YAxis,
    Plot,
    Overlay,
}

/// Where the cursor is, and what is being dragged.
#[derive(Debug, Clone, Copy, PartialEq, Eq, Structural)]
pub struct PointerState {
    pub over_x: bool,
    pub over_y: bool,
    pub over_plot: bool,
    pub x_dragging: bool,
    pub y_dragging: bool,
    pub plot_dragging: bool,
}

impl PointerState {
    /// The parts that an event is offered to, in order. A release goes to all of them, so that
    /// whatever is dragged ends; any other event goes to the axes it concerns until one of them
    /// acts, and else to the plot.
    pub fn targets(&self, is_release: bool, x_acts: bool, y_acts: bool) -> (r: Vec<Target>)
        ensures
            is_release ==> r@ == seq![Target::XAxis, Target::YAxis, Target::Plot, Target::Overlay],
            !is_release ==> r@ == ({
                let x = self.over_x || self.x_dragging;
                let y = self.over_y || self.y_dragging;
                let plot = self.over_plot || self.plot_dragging;
                let after_y = if plot {
                    seq![Target::Plot, Target::Overlay]
                } else {
                    Seq::empty()
                };
                let after_x = if y && y_acts {
                    seq![Target::YAxis]
                } else if y {
                    seq![Target::YAxis] + after_y
                } else {
                    after_y
                };
                if x && x_acts {
                    seq![Target::XAxis]
                } else if x {
                    seq![Target::XAxis] + after_x
                } else {
                    after_x
                }
            }),
    {
        let mut r: Vec<Target> = Vec::new();
        if is_release {
            r.push(Target::XAxis);
            r.push(Target::YAxis);
            r.push(Target::Plot);
            r.push(Target::Overlay);
            return r;
        }
        if self.over_x || self.x_dragging {
            r.push(Target::XAxis);
            if x_acts {
                return r;
            }
        }
        if self.over_y || self.y_dragging {
            r.push(Target::YAxis);
            if y_acts {
                return r;
            }
        }
        if self.over_plot || self.plot_dragging {
            r.push(Target::Plot);
            r.push(Target::Overlay);
        }
        r
    }

    /// The part whose cursor is shown.
    pub fn cursor_target(&self) -> (t: Target)
        ensures
            t == (if self.over_x || self.x_dragging {
                Target::XAxis
            } else if self.over_y || self.y_dragging {
                Target::YAxis
            } else {
                Target::Overlay
            }),
    {
        if self.over_x || self.x_dragging {
            Target::XAxis
        } else if self.over_y || self.y_dragging {
            Target::YAxis
        } else {
            Target::Overlay
        }
    }
}

/// What the heatmap remembers from event to event.
#[derive(Debug, Clone, Copy, PartialEq, Eq, Structural)]
pub struct PlotWatch {
    pub last_width: F32Bits,
    pub last_height: F32Bits,
    pub was_cursor_in_plot: bool,
}

/// Two numbers differ, or one of them is none.
pub open spec fn differs(a: F32Bits, b: F32Bits) -> bool {
    a.is_nan() || b.is_nan() || a.rank() != b.rank()
}

/// A number is larger than zero.
pub open spec fn is_positive(a: F32Bits) -> bool {
    (F32Bits { bits: 0 }).spec_lt(a)
}

impl PlotWatch {
    /// Whether the plot has a new size to be told of, which is then remembered.
    pub fn size_changed(&mut self, width: F32Bits, height: F32Bits) -> (r: bool)
        ensures
            r == ((differs(width, old(self).last_width) || differs(
                height,
                old(self).last_height,
            )) && is_positive(width) && is_positive(height)),
            *final(self) == (if r {
                PlotWatch { last_width: width, last_height: height, ..*old(self) }
            } else {
                *old(self)
            }),
    {
        let zero: F32Bits = F32Bits { bits: 0 };
        let same: bool = width.le(self.last_width) && self.last_width.le(width) && height.le(
            self.last_height,
        ) && self.last_height.le(height);
        if same || !zero.lt(width) || !zero.lt(height) {
            return false;
        }
        self.last_width = width;
        self.last_height = height;
        true
    }

    /// Whether a move of the cursor is told: while it is in the plot, and once when it leaves.
    pub fn cursor_moved(&mut self, over_plot: bool) -> (told: bool)
        ensures
            told == (over_plot || old(self).was_cursor_in_plot),
            *final(self) == (PlotWatch { was_cursor_in_plot: over_plot, ..*old(self) }),
    {
        let told: bool = over_plot || self.was_cursor_in_plot;
        self.was_cursor_in_plot = over_plot;
        told
    }
}

} // verus!
