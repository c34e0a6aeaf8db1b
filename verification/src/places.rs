//! Few common places in the city of Wrocław, useful for a demo application.

use vstd::prelude::*;

use crate::position::Position;

verus! {

/// Main train station of the city of Wrocław.
/// <https://en.wikipedia.org/wiki/Wroc%C5%82aw_G%C5%82%C3%B3wny_railway_station>
pub fn wroclaw_glowny() -> (r: Position)
    ensures
        r.lon() == 17_036_640,
        r.lat() == 51_099_160,
{
    Position::new(17_036_640, 51_099_160)
}

/// Taking a public bus (line 106) is probably the cheapest option to get
/// from the train station to the airport.
/// <https://www.wroclaw.pl/en/how-and-where-to-buy-public-transport-tickets-in-wroclaw>
pub fn dworcowa_bus_stop() -> (r: Position)
    ensures
        r.lon() == 17_039_400,
        r.lat() == 51_100_050,
{
    Position::new(17_039_400, 51_100_050)
}

/// Shopping center, and a main city bus terminus.
pub fn wroclavia() -> (r: Position)
    ensures
        r.lon() == 17_034_710,
        r.lat() == 51_096_480,
{
    Position::new(17_034_710, 51_096_480)
}

} // verus!
