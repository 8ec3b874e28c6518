//! Whether an indicator can be shown, and why not.
use crate::units::{Basis, Exchange};
use vstd::prelude::*;
use vstd::string::*;

verus! {

/// Whether an indicator can be shown.
#[derive(Debug, Clone, Copy, PartialEq, Eq, Structural)]
pub enum IndicatorAvailability {
    /// It can be rendered normally.
    Available,
    /// That cannot be determined yet.
    Unknown,
    /// It cannot be rendered for the current source.
    Unavailable(AvailabilityCause),
}

/// Why an indicator cannot be shown.
#[derive(Debug, Clone, Copy, PartialEq, Eq, Structural)]
pub enum AvailabilityCause {
    Exchange(Exchange),
    /// The timeframe, in milliseconds.
    Timeframe(u64),
    Basis(Basis),
    TradeData,
}

impl Default for IndicatorAvailability {
    fn default() -> (a: IndicatorAvailability)
        ensures
            a == IndicatorAvailability::Available,
    {
        IndicatorAvailability::Available
    }
}

/// What stands between the indicator's name and the name of the cause.
pub open spec fn cause_words(cause: AvailabilityCause) -> Seq<char> {
    match cause {
        AvailabilityCause::Exchange(_) => " is not available for "@,
        AvailabilityCause::Timeframe(_) => " is not available on "@,
        AvailabilityCause::Basis(Basis::Tick(_)) => " is not available for tick charts."@,
        AvailabilityCause::Basis(_) => " is not available on "@,
        AvailabilityCause::TradeData => " requires directional trade-volume data."@,
    }
}

/// What stands after the name of the cause, where the cause is named.
pub open spec fn cause_end(cause: AvailabilityCause) -> Option<Seq<char>> {
    match cause {
        AvailabilityCause::Exchange(_) => Some("."@),
        AvailabilityCause::Timeframe(_) => Some(" timeframe."@),
        AvailabilityCause::Basis(Basis::Tick(_)) => None,
        AvailabilityCause::Basis(_) => Some(" basis."@),
        AvailabilityCause::TradeData => None,
    }
}

/// The message for a cause that is called `name`.
pub open spec fn cause_message(
    indicator: Seq<char>,
    cause: AvailabilityCause,
    name: Seq<char>,
) -> Seq<char> {
    match cause_end(cause) {
        None => indicator + cause_words(cause),
        Some(end) => indicator + cause_words(cause) + name + end,
    }
}

impl IndicatorAvailability {
    /// What is shown in place of an indicator that is not available, whose cause is called
    /// `name`.
    pub fn unavailable_message(&self, indicator: &str, name: &str) -> (r: Option<String>)
        ensures
            match self {
                IndicatorAvailability::Unavailable(cause) => r matches Some(s) && s@
                    == cause_message(indicator@, *cause, name@),
                _ => r is None,
            },
    {
        let cause: AvailabilityCause = match self {
            IndicatorAvailability::Unavailable(cause) => *cause,
            _ => {
                return None;
            },
        };
        let mut s: String = indicator.to_owned();
        match cause {
            AvailabilityCause::Exchange(_) => {
                s.append(" is not available for ");
                s.append(name);
                s.append(".");
            },
            AvailabilityCause::Timeframe(_) => {
                s.append(" is not available on ");
                s.append(name);
                s.append(" timeframe.");
            },
            AvailabilityCause::Basis(Basis::Tick(_)) => {
                s.append(" is not available for tick charts.");
            },
            AvailabilityCause::Basis(_) => {
                s.append(" is not available on ");
                s.append(name);
                s.append(" basis.");
            },
            AvailabilityCause::TradeData => {
                s.append(" requires directional trade-volume data.");
            },
        }
        Some(s)
    }
}

} // verus!
