use flowsurface::axis::{
    beside_crosshair, candle_countdown, crosshair_key, filter, interval_at, Axis, LabelBox,
    PriceInfoLabel,
};
use flowsurface::float_bits::F32Bits;
use flowsurface::interaction::{
    AxisAction, AxisEvent, AxisInteraction, CursorShape, Interaction, PlotAction, PlotEvent,
    PlotWatch, PointerState, PriceAxisAction, PriceAxisEvent, Spot, Target,
};
use flowsurface::logger::{
    fatal_line, format_panic_report, level_filter, overflow_message, LogBudget, LogLevel,
    PanicLocation, MAX_LOG_FILE_SIZE,
};
use flowsurface::math::{div_to_zero, floor_div, next_power_of_two, rem_floor, u64_as_i64};
use flowsurface::text::{decimal, decimal_two, trim, trim_end_slashes, with_stars};
use flowsurface::units::{Price, Qty, Volume};

fn f(v: f32) -> F32Bits {
    F32Bits { bits: v.to_bits() }
}

fn label(axis: Axis, left: f32, right: f32) -> LabelBox {
    LabelBox { axis, left: f(left), right: f(right), top: f(0.0), bottom: f(10.0) }
}

#[test]
fn the_last_labels_win() {
    let labels = vec![
        label(Axis::X, 0.0, 10.0),
        label(Axis::X, 5.0, 15.0),
        label(Axis::X, 14.0, 20.0),
        label(Axis::Y, 14.0, 20.0),
    ];
    assert_eq!(filter(&labels), vec![3, 2, 0]);
    let kept = filter(&labels);
    assert_eq!(
        beside_crosshair(&labels, &kept, &label(Axis::X, 9.0, 12.0)),
        vec![3, 2]
    );
    assert!(filter(&vec![]).is_empty());
    assert!(!label(Axis::X, 0.0, 10.0).intersects(&label(Axis::X, 10.0, 20.0)));
    // An edge that is not a number does not count.
    assert!(label(Axis::X, f32::NAN, 10.0).intersects(&label(Axis::X, 5.0, 20.0)));
    assert!(label(Axis::X, 0.0, 10.0).intersects(&label(Axis::X, 5.0, f32::NAN)));
    assert!(!label(Axis::X, 0.0, f32::NAN).intersects(&label(Axis::X, 5.0, f32::NAN)));
}

#[test]
fn labels_show_the_direction() {
    assert_eq!(
        PriceInfoLabel::new(Price { units: 5 }, Price { units: 5 }),
        PriceInfoLabel::Up(Price { units: 5 })
    );
    let down = PriceInfoLabel::new(Price { units: 4 }, Price { units: 5 });
    assert_eq!(down, PriceInfoLabel::Down(Price { units: 4 }));
    assert_eq!(down.price(), Price { units: 4 });
}

#[test]
fn a_bar_counts_down() {
    assert_eq!(candle_countdown(0, 60_000), Some("01:00".to_string()));
    assert_eq!(candle_countdown(55_000, 60_000), Some("00:05".to_string()));
    assert_eq!(candle_countdown(59_500, 60_000), None);
    assert_eq!(candle_countdown(1_000, 14_400_000), Some("03:59:59".to_string()));
    assert_eq!(candle_countdown(0, 360_000_000), Some("100:00:00".to_string()));
}

#[test]
fn a_crosshair_over_ticks_has_a_time() {
    let keys = vec![10, 20, 30];
    assert_eq!(crosshair_key(&keys, 0), Some(30));
    assert_eq!(crosshair_key(&keys, -2), Some(10));
    assert_eq!(crosshair_key(&keys, -3), None);
    assert_eq!(crosshair_key(&keys, 1), None);
    assert_eq!(crosshair_key(&keys, i32::MIN), None);
    assert_eq!(interval_at(100, 30, true), 70);
    assert_eq!(interval_at(100, 130, true), 0);
    assert_eq!(interval_at(u64::MAX, 1, false), u64::MAX);
}

fn spot(x: f32) -> Spot {
    Spot { x: f(x), y: f(0.0) }
}

#[test]
fn an_axis_is_dragged() {
    let mut i = Interaction::Idle;
    assert_eq!(
        i.on_axis_event(AxisEvent::Moved { at: Some(spot(1.0)), far: true }),
        AxisAction::Nothing
    );
    i.on_axis_event(AxisEvent::Pressed { inside: false, at: Some(spot(1.0)) });
    assert_eq!(i, Interaction::Idle);
    i.on_axis_event(AxisEvent::Pressed { inside: true, at: Some(spot(1.0)) });
    assert_eq!(i.axis_cursor(false), CursorShape::Resizing);
    assert_eq!(i.plot_cursor(true), CursorShape::ZoomIn);
    assert_eq!(
        i.on_axis_event(AxisEvent::Moved { at: Some(spot(5.0)), far: true }),
        AxisAction::ScaleByDrag { from: spot(1.0), to: spot(5.0) }
    );
    assert_eq!(
        i.on_axis_event(AxisEvent::Moved { at: Some(spot(5.5)), far: false }),
        AxisAction::Nothing
    );
    assert_eq!(
        i.on_axis_event(AxisEvent::Scrolled { inside: true }),
        AxisAction::ScaleByWheel
    );
    i.on_axis_event(AxisEvent::Released);
    assert_eq!(i, Interaction::Idle);
    assert_eq!(i.plot_cursor(true), CursorShape::Crosshair);
    assert_eq!(i.on_axis_event(AxisEvent::Other), AxisAction::Nothing);
}

#[test]
fn a_double_click_resets_the_price_axis() {
    let mut i = AxisInteraction::Idle;
    i.on_price_axis_event(PriceAxisEvent::Pressed { at: Some(spot(1.0)), double: false });
    assert_eq!(
        i.on_price_axis_event(PriceAxisEvent::Moved { at: spot(3.0) }),
        PriceAxisAction::ZoomByDrag { from: spot(1.0), to: spot(3.0) }
    );
    assert_eq!(
        i.on_price_axis_event(PriceAxisEvent::Pressed { at: Some(spot(1.0)), double: true }),
        PriceAxisAction::Reset
    );
    assert_eq!(i, AxisInteraction::Idle);
    assert_eq!(
        i.on_price_axis_event(PriceAxisEvent::Scrolled { inside: true }),
        PriceAxisAction::ZoomByWheel
    );
    assert_eq!(
        i.on_price_axis_event(PriceAxisEvent::Pressed { at: None, double: true }),
        PriceAxisAction::Nothing
    );
}

#[test]
fn a_plot_is_panned_while_the_cursor_is_over_it() {
    let mut i = AxisInteraction::Idle;
    i.on_plot_event(PlotEvent::Pressed { at: Some(spot(1.0)) });
    assert_eq!(
        i.on_plot_event(PlotEvent::Moved { at: spot(2.0), over: false }),
        PlotAction::Nothing
    );
    assert_eq!(
        i.on_plot_event(PlotEvent::Moved { at: spot(3.0), over: true }),
        PlotAction::Pan { from: spot(1.0), to: spot(3.0) }
    );
    i.on_plot_event(PlotEvent::Released);
    assert_eq!(
        i.on_plot_event(PlotEvent::Moved { at: spot(3.0), over: true }),
        PlotAction::Nothing
    );
}

#[test]
fn events_go_to_the_part_they_concern() {
    let p = PointerState {
        over_x: true,
        over_y: false,
        over_plot: true,
        x_dragging: false,
        y_dragging: true,
        plot_dragging: false,
    };
    assert_eq!(
        p.targets(true, false, false),
        vec![Target::XAxis, Target::YAxis, Target::Plot, Target::Overlay]
    );
    assert_eq!(p.targets(false, true, false), vec![Target::XAxis]);
    assert_eq!(p.targets(false, false, true), vec![Target::XAxis, Target::YAxis]);
    assert_eq!(
        p.targets(false, false, false),
        vec![Target::XAxis, Target::YAxis, Target::Plot, Target::Overlay]
    );
    assert_eq!(p.cursor_target(), Target::XAxis);
    let mut w = PlotWatch {
        last_width: f(0.0),
        last_height: f(0.0),
        was_cursor_in_plot: false,
    };
    assert!(!w.size_changed(f(0.0), f(5.0)));
    assert!(w.size_changed(f(4.0), f(5.0)));
    assert!(!w.size_changed(f(4.0), f(5.0)));
    assert!(!w.cursor_moved(false));
    assert!(w.cursor_moved(true));
    assert!(w.cursor_moved(false));
    assert!(!w.cursor_moved(false));
}

#[test]
fn the_environment_names_the_level() {
    assert_eq!(level_filter(true, None), Some(LogLevel::Debug));
    assert_eq!(level_filter(false, None), Some(LogLevel::Info));
    assert_eq!(level_filter(false, Some("trace")), Some(LogLevel::Trace));
    assert_eq!(level_filter(false, Some("WaRn")), Some(LogLevel::Warn));
    assert_eq!(level_filter(false, Some("error")), Some(LogLevel::Error));
    assert_eq!(level_filter(false, Some("DEBUG")), Some(LogLevel::Debug));
    assert_eq!(level_filter(true, Some("off")), None);
    assert_eq!(level_filter(true, Some("")), None);
}

#[test]
fn the_log_may_not_grow_too_large() {
    let mut b = LogBudget { current_size: MAX_LOG_FILE_SIZE - 10 };
    assert!(b.fits(10));
    assert!(!b.fits(11));
    assert!(!b.fits(u64::MAX));
    b.written(10);
    assert!(b.fits(0));
    assert!(!b.fits(1));
    assert_eq!(
        overflow_message("12:00:00.000"),
        "\n12:00:00.000:FATAL -- Log file size would exceed the maximum allowed size of 52428800 bytes\n"
    );
    assert_eq!(fatal_line("12:00", "gone"), "12:00:FATAL -- gone");
}

#[test]
fn a_panic_is_reported() {
    let at = Some(PanicLocation { file: "a.rs".to_string(), line: 12, column: 3 });
    assert_eq!(
        format_panic_report(Some("main"), &at, Some("boom"), "bt"),
        "panic in thread 'main' at a.rs:12:3: boom\nBacktrace:\nbt"
    );
    assert_eq!(
        format_panic_report(None, &None, None, ""),
        "panic in thread 'unnamed' at unknown location: non-string panic payload\nBacktrace:\n"
    );
}

#[test]
fn texts_are_trimmed_and_written() {
    assert_eq!(trim("  a b\t\n"), "a b");
    assert_eq!(trim("\u{3000}x\u{a0}"), "x");
    assert_eq!(trim(" "), "");
    assert_eq!(trim_end_slashes("http://a//"), "http://a");
    assert_eq!(trim_end_slashes("///"), "");
    assert_eq!(decimal(0), "0");
    assert_eq!(decimal(u64::MAX), "18446744073709551615");
    assert_eq!(decimal_two(7), "07");
    assert_eq!(decimal_two(123), "123");
    assert_eq!(with_stars("x ", 3).chars().count(), 5);
}

#[test]
fn integers_are_divided_both_ways() {
    assert_eq!(floor_div(-7, 2), -4);
    assert_eq!(div_to_zero(-7, 2), -3);
    assert_eq!(rem_floor(-1, 8), 7);
    assert_eq!(next_power_of_two(4800), 8192);
    assert_eq!(next_power_of_two(8192), 8192);
    assert_eq!(u64_as_i64(u64::MAX), -1);
    let v = Volume::BuySell { buy: Qty { units: i64::MAX }, sell: Qty { units: 1 } };
    assert_eq!(v.total(), i64::MAX as i128 + 1);
}
