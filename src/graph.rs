//! Time windows of the network charts.

use vstd::prelude::*;

verus! {

/// The time span a chart covers.
#[derive(Clone, Copy, Debug, PartialEq, Eq, Structural)]
pub enum GraphDisplayMode {
    OneMinute,
    FiveMinutes,
    TenMinutes,
    ThirtyMinutes,
    OneHour,
    ThreeHours,
    TwelveHours,
    TwentyFourHours,
}

/// Position of a mode in the cycle, from the shortest window.
pub open spec fn mode_rank(m: GraphDisplayMode) -> int {
    match m {
        GraphDisplayMode::OneMinute => 0,
        GraphDisplayMode::FiveMinutes => 1,
        GraphDisplayMode::TenMinutes => 2,
        GraphDisplayMode::ThirtyMinutes => 3,
        GraphDisplayMode::OneHour => 4,
        GraphDisplayMode::ThreeHours => 5,
        GraphDisplayMode::TwelveHours => 6,
        GraphDisplayMode::TwentyFourHours => 7,
    }
}

pub open spec fn mode_seconds(m: GraphDisplayMode) -> int {
    match m {
        GraphDisplayMode::OneMinute => 60,
        GraphDisplayMode::FiveMinutes => 300,
        GraphDisplayMode::TenMinutes => 600,
        GraphDisplayMode::ThirtyMinutes => 1800,
        GraphDisplayMode::OneHour => 3600,
        GraphDisplayMode::ThreeHours => 10_800,
        GraphDisplayMode::TwelveHours => 43_200,
        GraphDisplayMode::TwentyFourHours => 86_400,
    }
}

pub open spec fn mode_label(m: GraphDisplayMode) -> Seq<char> {
    match m {
        GraphDisplayMode::OneMinute => seq!['1', 'm'],
        GraphDisplayMode::FiveMinutes => seq!['5', 'm'],
        GraphDisplayMode::TenMinutes => seq!['1', '0', 'm'],
        GraphDisplayMode::ThirtyMinutes => seq!['3', '0', 'm'],
        GraphDisplayMode::OneHour => seq!['1', 'h'],
        GraphDisplayMode::ThreeHours => seq!['3', 'h'],
        GraphDisplayMode::TwelveHours => seq!['1', '2', 'h'],
        GraphDisplayMode::TwentyFourHours => seq!['2', '4', 'h'],
    }
}

impl Default for GraphDisplayMode {
    fn default() -> (r: Self)
        ensures
            r == GraphDisplayMode::TenMinutes,
    {
        GraphDisplayMode::TenMinutes
    }
}

impl GraphDisplayMode {
    pub fn as_seconds(&self) -> (r: usize)
        ensures
            r == mode_seconds(*self),
    {
        match self {
            Self::OneMinute => 60,
            Self::FiveMinutes => 300,
            Self::TenMinutes => 600,
            Self::ThirtyMinutes => 1800,
            Self::OneHour => 3600,
            Self::ThreeHours => 3 * 3600,
            Self::TwelveHours => 12 * 3600,
            Self::TwentyFourHours => 86_400,
        }
    }

    pub fn to_string(self) -> (r: &'static str)
        ensures
            r@ == mode_label(self),
    {
        match self {
            Self::OneMinute => {
                proof { reveal_strlit("1m"); }
                "1m"
            },
            Self::FiveMinutes => {
                proof { reveal_strlit("5m"); }
                "5m"
            },
            Self::TenMinutes => {
                proof { reveal_strlit("10m"); }
                "10m"
            },
            Self::ThirtyMinutes => {
                proof { reveal_strlit("30m"); }
                "30m"
            },
            Self::OneHour => {
                proof { reveal_strlit("1h"); }
                "1h"
            },
            Self::ThreeHours => {
                proof { reveal_strlit("3h"); }
                "3h"
            },
            Self::TwelveHours => {
                proof { reveal_strlit("12h"); }
                "12h"
            },
            Self::TwentyFourHours => {
                proof { reveal_strlit("24h"); }
                "24h"
            },
        }
    }

    /// The next longer window; the longest wraps round to the shortest.
    pub fn next(&self) -> (r: Self)
        ensures
            mode_rank(r) == (mode_rank(*self) + 1) % 8,
    {
        match self {
            Self::OneMinute => Self::FiveMinutes,
            Self::FiveMinutes => Self::TenMinutes,
            Self::TenMinutes => Self::ThirtyMinutes,
            Self::ThirtyMinutes => Self::OneHour,
            Self::OneHour => Self::ThreeHours,
            Self::ThreeHours => Self::TwelveHours,
            Self::TwelveHours => Self::TwentyFourHours,
            Self::TwentyFourHours => Self::OneMinute,
        }
    }

    /// The next shorter window; the shortest wraps round to the longest.
    pub fn prev(&self) -> (r: Self)
        ensures
            mode_rank(r) == (mode_rank(*self) + 7) % 8,
    {
        match self {
            Self::OneMinute => Self::TwentyFourHours,
            Self::FiveMinutes => Self::OneMinute,
            Self::TenMinutes => Self::FiveMinutes,
            Self::ThirtyMinutes => Self::TenMinutes,
            Self::OneHour => Self::ThirtyMinutes,
            Self::ThreeHours => Self::OneHour,
            Self::TwelveHours => Self::ThreeHours,
            Self::TwentyFourHours => Self::TwelveHours,
        }
    }
}

} // verus!
