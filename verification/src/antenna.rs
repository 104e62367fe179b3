//! Which antenna serves a pointing direction, and the aperture each antenna covers.

use vstd::prelude::*;
use crate::text::{ascii, ascii_text};

verus! {

/// The antenna that serves azimuth `az` and elevation `el` (whole degrees).
/// High elevations (50 to 91 degrees) go to the zenith antenna 6; otherwise
/// the azimuth circle is split into five sectors, and anything beyond 360
/// degrees falls back to antenna 6.
pub open spec fn antenna_for(az: int, el: int) -> u16 {
    if 50 <= el <= 91 {
        6
    } else if 224 <= az < 296 {
        1
    } else if 296 <= az <= 360 {
        2
    } else if 0 <= az < 8 {
        2
    } else if 8 <= az < 80 {
        3
    } else if 80 <= az < 152 {
        4
    } else if 152 <= az < 224 {
        5
    } else {
        6
    }
}

/// Selects the antenna for a requested azimuth and elevation.
pub fn select_antenna(az: u16, el: u16) -> (ant: u16)
    ensures
        ant == antenna_for(az as int, el as int),
        1 <= ant <= 6,
{
    if 50 <= el && el <= 91 {
        6
    } else if 224 <= az && az < 296 {
        1
    } else if 296 <= az && az <= 360 {
        2
    } else if az < 8 {
        2
    } else if 8 <= az && az < 80 {
        3
    } else if 80 <= az && az < 152 {
        4
    } else if 152 <= az && az < 224 {
        5
    } else {
        6
    }
}

/// The aperture label shown for antenna `ant`.
pub open spec fn aperture_text(ant: int) -> Seq<u8> {
    if ant == 1 {
        ascii("<  224 .. 295   >"@)
    } else if ant == 2 {
        ascii("<0..7,  296..360>"@)
    } else if ant == 3 {
        ascii("<   8  ..  79   >"@)
    } else if ant == 4 {
        ascii("<  80  .. 151   >"@)
    } else if ant == 5 {
        ascii("<  152 .. 223   >"@)
    } else if ant == 6 {
        ascii("<  360 HIGH EL  >"@)
    } else {
        ascii("---- UNKNOWN ----"@)
    }
}

/// The aperture label for antenna number `ant`.
pub fn aperture_label(ant: u16) -> (label: Vec<u8>)
    ensures
        label@ == aperture_text(ant as int),
{
    if ant == 1 {
        proof { reveal_strlit("<  224 .. 295   >"); }
        ascii_text("<  224 .. 295   >")
    } else if ant == 2 {
        proof { reveal_strlit("<0..7,  296..360>"); }
        ascii_text("<0..7,  296..360>")
    } else if ant == 3 {
        proof { reveal_strlit("<   8  ..  79   >"); }
        ascii_text("<   8  ..  79   >")
    } else if ant == 4 {
        proof { reveal_strlit("<  80  .. 151   >"); }
        ascii_text("<  80  .. 151   >")
    } else if ant == 5 {
        proof { reveal_strlit("<  152 .. 223   >"); }
        ascii_text("<  152 .. 223   >")
    } else if ant == 6 {
        proof { reveal_strlit("<  360 HIGH EL  >"); }
        ascii_text("<  360 HIGH EL  >")
    } else {
        proof { reveal_strlit("---- UNKNOWN ----"); }
        ascii_text("---- UNKNOWN ----")
    }
}

/// The azimuth sector, in whole degrees, that the aperture label of antenna
/// `ant` announces for low elevations.
pub open spec fn aperture_covers(ant: int, az: int) -> bool {
    if ant == 1 {
        224 <= az <= 295
    } else if ant == 2 {
        (0 <= az <= 7) || (296 <= az <= 360)
    } else if ant == 3 {
        8 <= az <= 79
    } else if ant == 4 {
        80 <= az <= 151
    } else if ant == 5 {
        152 <= az <= 223
    } else {
        false
    }
}

/// At low elevation every azimuth from 0 to 360 degrees is served by exactly
/// the antenna whose aperture label covers it, and at high elevation by the
/// zenith antenna 6.
pub proof fn lemma_selection_matches_apertures(az: int, el: int, ant: int)
    requires
        0 <= az <= 360,
        0 <= el,
    ensures
        50 <= el <= 91 ==> antenna_for(az, el) == 6,
        !(50 <= el <= 91) ==> (antenna_for(az, el) == ant <==> aperture_covers(ant, az)),
{
}

} // verus!
