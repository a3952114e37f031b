use vstd::prelude::*;

verus! {

/// Recording parameters of one track of a Commodore 1541 disk.
#[derive(Clone, Copy, Debug, PartialEq, Eq, Structural)]
pub struct TrackConfiguration {
    pub cellsize: usize,
    pub sectors: u8,
    pub gap_size: usize,
}

/// The speed zone of a 1541 track: tracks 1-17, 18-24, 25-30 and 31 on.
pub open spec fn spec_track_settings(track: int) -> TrackConfiguration {
    if track <= 17 {
        TrackConfiguration { cellsize: 227, sectors: 21, gap_size: 8 }
    } else if track <= 24 {
        TrackConfiguration { cellsize: 245, sectors: 19, gap_size: 17 }
    } else if track <= 30 {
        TrackConfiguration { cellsize: 262, sectors: 18, gap_size: 12 }
    } else {
        TrackConfiguration { cellsize: 280, sectors: 17, gap_size: 9 }
    }
}

/// Settings of a 1541 track; tracks are counted from 1.
pub fn get_track_settings(track: usize) -> (r: TrackConfiguration)
    requires
        track != 0,
    ensures
        r == spec_track_settings(track as int),
{
    if track <= 17 {
        TrackConfiguration { cellsize: 227, sectors: 21, gap_size: 8 }
    } else if track <= 24 {
        TrackConfiguration { cellsize: 245, sectors: 19, gap_size: 17 }
    } else if track <= 30 {
        TrackConfiguration { cellsize: 262, sectors: 18, gap_size: 12 }
    } else {
        TrackConfiguration { cellsize: 280, sectors: 17, gap_size: 9 }
    }
}

/// The 1541 writes fewer sectors on the inner tracks and writes them with longer cells: going
/// inward, cells never get shorter and sectors never get more, and a track holds fewer
/// sectors than another exactly when its cells are longer.
pub proof fn lemma_zones_ordered(t1: int, t2: int)
    requires
        1 <= t1 <= t2,
    ensures
        spec_track_settings(t1).cellsize <= spec_track_settings(t2).cellsize,
        spec_track_settings(t1).sectors >= spec_track_settings(t2).sectors,
        (spec_track_settings(t1).sectors > spec_track_settings(t2).sectors) == (spec_track_settings(
            t1,
        ).cellsize < spec_track_settings(t2).cellsize),
{
}

/// The sectors of the 35 tracks of a 1541 disk, tracks `1..=n`.
pub open spec fn sectors_up_to(n: nat) -> nat
    decreases n,
{
    if n == 0 {
        0
    } else {
        sectors_up_to((n - 1) as nat) + spec_track_settings(n as int).sectors as nat
    }
}

/// A 1541 disk of 35 tracks holds 683 sectors of 256 bytes: the 174848 bytes of a D64 image.
pub proof fn lemma_d64_capacity()
    ensures
        sectors_up_to(35) == 683,
        sectors_up_to(35) * 256 == 174848,
{
    reveal_with_fuel(sectors_up_to, 36);
}

} // verus!
