//! Calibrating the write precompensation of a drive: a track is written to chosen cylinders
//! with every value of precompensation, and the worst pulse error of each verification is
//! kept in a table by cylinder.
use vstd::prelude::*;

use crate::rawtrack::RawTrack;
use crate::types::{Density, DiskType};
use crate::usb_answer::UsbAnswer;

verus! {

/// The cylinders that are calibrated; the ones around 40 are dense because most drives
/// switch on their own precompensation there.
pub open spec fn calibration_cylinder_list() -> Seq<u32> {
    seq![0u32, 10, 20, 30, 39, 40, 41, 42, 43, 44, 50, 60, 70, 75, 79]
}

pub fn calibration_cylinders() -> (r: Vec<u32>)
    ensures
        r@ == calibration_cylinder_list(),
{
    let r: Vec<u32> = vec![0u32, 10, 20, 30, 39, 40, 41, 42, 43, 44, 50, 60, 70, 75, 79];
    assert(r@ =~= calibration_cylinder_list());
    r
}

/// The values of precompensation tried are `0..` this bound; a high density 5.25" disk
/// is not calibrated.
pub open spec fn max_precomp(density: Density, disk_type: DiskType) -> Option<u32> {
    match (density, disk_type) {
        (Density::High, DiskType::Inch3_5) => Some(12u32),
        (Density::SingleDouble, DiskType::Inch3_5) => Some(22u32),
        (Density::SingleDouble, DiskType::Inch5_25) => Some(14u32),
        _ => None,
    }
}

pub fn maximum_write_precompensation(density: Density, disk_type: DiskType) -> (r: Option<u32>)
    ensures
        r == max_precomp(density, disk_type),
{
    match (density, disk_type) {
        (Density::High, DiskType::Inch3_5) => Some(12),
        (Density::SingleDouble, DiskType::Inch3_5) => Some(22),
        (Density::SingleDouble, DiskType::Inch5_25) => Some(14),
        _ => None,
    }
}

/// The track written to calibrate `cylinder`: the first track of that cylinder, else the
/// last track of the image; `None` for an image without tracks.
pub fn calibration_track(tracks: &[RawTrack], cylinder: u32) -> (r: Option<usize>)
    ensures
        r is None <==> tracks@.len() == 0,
        r matches Some(i) ==> i < tracks@.len() && forall|k: int|
            0 <= k < i ==> #[trigger] tracks@[k].cylinder != cylinder,
        r matches Some(i) ==> tracks@[i as int].cylinder == cylinder || (i == tracks@.len() - 1
            && forall|k: int| 0 <= k < tracks@.len() ==> #[trigger] tracks@[k].cylinder != cylinder),
{
    let mut i: usize = 0;
    while i < tracks.len()
        invariant
            i <= tracks@.len(),
            forall|k: int| 0 <= k < i ==> #[trigger] tracks@[k].cylinder != cylinder,
        decreases tracks@.len() - i,
    {
        if tracks[i].cylinder == cylinder {
            return Some(i);
        }
        i = i + 1;
    }
    if tracks.len() == 0 {
        None
    } else {
        Some(tracks.len() - 1)
    }
}

/// The error recorded for a track that the device could not write.
pub const FAILED_TRACK_ERROR: u32 = 55;

/// What an answer of the device means during a calibration.
#[derive(Clone, Copy, Debug, PartialEq, Eq, Structural)]
pub enum CalibrationStep {
    /// Record `max_err` for `cylinder`.
    Record { cylinder: u32, max_err: u32 },
    /// The device took the command: the next write can be sent.
    NextTrack,
    /// The disk is write protected.
    WriteProtected,
    /// An answer that does not belong to a calibration.
    Unexpected,
}

/// A verified write records its worst pulse error, a failed one [`FAILED_TRACK_ERROR`].
pub open spec fn calibration_step_spec(a: UsbAnswer) -> CalibrationStep {
    match a {
        UsbAnswer::WrittenAndVerified { cylinder, max_err, .. } => CalibrationStep::Record {
            cylinder,
            max_err,
        },
        UsbAnswer::Fail { cylinder, .. } => CalibrationStep::Record {
            cylinder,
            max_err: FAILED_TRACK_ERROR,
        },
        UsbAnswer::GotCmd => CalibrationStep::NextTrack,
        UsbAnswer::WriteProtected => CalibrationStep::WriteProtected,
        UsbAnswer::RotationTicks { .. } => CalibrationStep::Unexpected,
    }
}

pub fn calibration_step(answer: &UsbAnswer) -> (r: CalibrationStep)
    ensures
        r == calibration_step_spec(*answer),
{
    match answer {
        UsbAnswer::WrittenAndVerified { cylinder, max_err, .. } => CalibrationStep::Record {
            cylinder: *cylinder,
            max_err: *max_err,
        },
        UsbAnswer::Fail { cylinder, .. } => CalibrationStep::Record {
            cylinder: *cylinder,
            max_err: FAILED_TRACK_ERROR,
        },
        UsbAnswer::GotCmd => CalibrationStep::NextTrack,
        UsbAnswer::WriteProtected => CalibrationStep::WriteProtected,
        UsbAnswer::RotationTicks { .. } => CalibrationStep::Unexpected,
    }
}

/// The errors measured on one cylinder, in the order of the precompensation values.
pub struct CalibrationRow {
    pub cylinder: u32,
    pub max_errors: Vec<u32>,
}

/// The results of a calibration, one row per cylinder, ordered by cylinder.
pub struct CalibrationTable {
    pub rows: Vec<CalibrationRow>,
}

/// Some row of `rows` is that of `cylinder`.
pub open spec fn has_row(rows: Seq<CalibrationRow>, cylinder: u32) -> bool {
    exists|i: int| 0 <= i < rows.len() && (#[trigger] rows[i]).cylinder == cylinder
}

impl CalibrationTable {
    /// The rows are ordered by strictly increasing cylinder.
    pub open spec fn wf(&self) -> bool {
        forall|i: int, j: int|
            0 <= i < j < self.rows@.len() ==> (#[trigger] self.rows@[i]).cylinder
                < (#[trigger] self.rows@[j]).cylinder
    }

    pub fn new() -> (r: Self)
        ensures
            r.wf(),
            r.rows@.len() == 0,
    {
        CalibrationTable { rows: Vec::new() }
    }

    /// The index of the first row whose cylinder is not below `cylinder`.
    fn position(&self, cylinder: u32) -> (p: usize)
        requires
            self.wf(),
        ensures
            p <= self.rows@.len(),
            forall|k: int| 0 <= k < p ==> (#[trigger] self.rows@[k]).cylinder < cylinder,
            p < self.rows@.len() ==> self.rows@[p as int].cylinder >= cylinder,
    {
        let mut p: usize = 0;
        while p < self.rows.len() && self.rows[p].cylinder < cylinder
            invariant
                p <= self.rows@.len(),
                forall|k: int| 0 <= k < p ==> (#[trigger] self.rows@[k]).cylinder < cylinder,
            decreases self.rows@.len() - p,
        {
            p = p + 1;
        }
        p
    }

    pub fn has_cylinder(&self, cylinder: u32) -> (r: bool)
        requires
            self.wf(),
        ensures
            r == has_row(self.rows@, cylinder),
    {
        let p = self.position(cylinder);
        if p < self.rows.len() && self.rows[p].cylinder == cylinder {
            true
        } else {
            proof {
                assert forall|i: int| 0 <= i < self.rows@.len() implies (
                #[trigger] self.rows@[i]).cylinder != cylinder by {
                    if i >= p && p < self.rows@.len() && i > p {
                        assert(self.rows@[p as int].cylinder < self.rows@[i].cylinder);
                    }
                }
            }
            false
        }
    }

    /// Starts the row of `cylinder` anew, empty; the other rows stay as they are.
    pub fn start_cylinder(&mut self, cylinder: u32)
        requires
            old(self).wf(),
        ensures
            final(self).wf(),
            forall|c: u32| has_row(final(self).rows@, c) <==> (c == cylinder || has_row(old(self).rows@, c)),
            forall|i: int|
                0 <= i < final(self).rows@.len() && (#[trigger] final(self).rows@[i]).cylinder == cylinder
                    ==> final(self).rows@[i].max_errors@.len() == 0,
            forall|i: int, j: int|
                0 <= i < final(self).rows@.len() && 0 <= j < old(self).rows@.len() && (
                #[trigger] final(self).rows@[i]).cylinder == (#[trigger] old(self).rows@[j]).cylinder
                    && old(self).rows@[j].cylinder != cylinder ==> final(self).rows@[i].max_errors@
                    == old(self).rows@[j].max_errors@,
    {
        let p = self.position(cylinder);
        let ghost old_rows = self.rows@;
        let row = CalibrationRow { cylinder, max_errors: Vec::new() };
        if p < self.rows.len() && self.rows[p].cylinder == cylinder {
            let _ = self.rows.remove(p);
            self.rows.insert(p, row);
            assert(self.rows@ =~= old_rows.update(p as int, self.rows@[p as int]));
            assert forall|c: u32| has_row(self.rows@, c) <==> (c == cylinder || has_row(old_rows, c)) by {
                if has_row(old_rows, c) {
                    let i = choose|i: int| 0 <= i < old_rows.len() && (#[trigger] old_rows[i]).cylinder == c;
                    assert(self.rows@[i].cylinder == c);
                }
                if has_row(self.rows@, c) {
                    let i = choose|i: int| 0 <= i < self.rows@.len() && (#[trigger] self.rows@[i]).cylinder == c;
                    assert(old_rows[i].cylinder == c);
                }
                if c == cylinder {
                    assert(self.rows@[p as int].cylinder == c);
                }
            }
            assert forall|i: int, j: int|
                0 <= i < self.rows@.len() && 0 <= j < old_rows.len() && (
                #[trigger] self.rows@[i]).cylinder == (#[trigger] old_rows[j]).cylinder
                    && old_rows[j].cylinder != cylinder implies self.rows@[i].max_errors@
                    == old_rows[j].max_errors@ by {
                if i != j {
                    if i < j {
                        assert(old_rows[i].cylinder < old_rows[j].cylinder);
                    } else {
                        assert(old_rows[j].cylinder < old_rows[i].cylinder);
                    }
                }
            }
        } else {
            self.rows.insert(p, row);
            assert(self.rows@ =~= old_rows.insert(p as int, self.rows@[p as int]));
            assert forall|i: int, j: int|
                0 <= i < j < self.rows@.len() implies (#[trigger] self.rows@[i]).cylinder
                < (#[trigger] self.rows@[j]).cylinder by {
                if j < p {
                } else if i < p && j == p {
                } else if i < p {
                    assert(old_rows[i].cylinder < old_rows[j - 1].cylinder);
                } else if i == p {
                    assert(old_rows[p as int].cylinder <= old_rows[j - 1].cylinder);
                } else {
                    assert(old_rows[i - 1].cylinder < old_rows[j - 1].cylinder);
                }
            }
            assert forall|c: u32| has_row(self.rows@, c) <==> (c == cylinder || has_row(old_rows, c)) by {
                if has_row(old_rows, c) {
                    let i = choose|i: int| 0 <= i < old_rows.len() && (#[trigger] old_rows[i]).cylinder == c;
                    if i < p {
                        assert(self.rows@[i].cylinder == c);
                    } else {
                        assert(self.rows@[i + 1].cylinder == c);
                    }
                }
                if has_row(self.rows@, c) {
                    let i = choose|i: int| 0 <= i < self.rows@.len() && (#[trigger] self.rows@[i]).cylinder == c;
                    if i < p {
                        assert(old_rows[i].cylinder == c);
                    } else if i > p {
                        assert(old_rows[i - 1].cylinder == c);
                    }
                }
                if c == cylinder {
                    assert(self.rows@[p as int].cylinder == c);
                }
            }
            assert forall|i: int|
                0 <= i < self.rows@.len() && (#[trigger] self.rows@[i]).cylinder == cylinder
                    implies self.rows@[i].max_errors@.len() == 0 by {
                if i < p {
                } else if i > p {
                    if p < old_rows.len() {
                        assert(old_rows[p as int].cylinder <= old_rows[i - 1].cylinder);
                    }
                }
            }
            assert forall|i: int, j: int|
                0 <= i < self.rows@.len() && 0 <= j < old_rows.len() && (
                #[trigger] self.rows@[i]).cylinder == (#[trigger] old_rows[j]).cylinder
                    && old_rows[j].cylinder != cylinder implies self.rows@[i].max_errors@
                    == old_rows[j].max_errors@ by {
                if i < p {
                    if i != j {
                        if i < j {
                            assert(old_rows[i].cylinder < old_rows[j].cylinder);
                        } else {
                            assert(old_rows[j].cylinder < old_rows[i].cylinder);
                        }
                    }
                } else if i > p {
                    if i - 1 != j {
                        if i - 1 < j {
                            assert(old_rows[i - 1].cylinder < old_rows[j].cylinder);
                        } else {
                            assert(old_rows[j].cylinder < old_rows[i - 1].cylinder);
                        }
                    }
                }
            }
        }
    }

    /// Appends `max_err` to the row of `cylinder`; the rows themselves stay.
    pub fn record(&mut self, cylinder: u32, max_err: u32)
        requires
            old(self).wf(),
            has_row(old(self).rows@, cylinder),
        ensures
            final(self).wf(),
            final(self).rows@.len() == old(self).rows@.len(),
            forall|i: int|
                0 <= i < final(self).rows@.len() ==> (#[trigger] final(self).rows@[i]).cylinder
                    == old(self).rows@[i].cylinder && final(self).rows@[i].max_errors@ == if old(
                    self,
                ).rows@[i].cylinder == cylinder {
                    old(self).rows@[i].max_errors@.push(max_err)
                } else {
                    old(self).rows@[i].max_errors@
                },
    {
        let p = self.position(cylinder);
        let ghost old_rows = self.rows@;
        proof {
            let i = choose|i: int| 0 <= i < old_rows.len() && (#[trigger] old_rows[i]).cylinder == cylinder;
            if i > p {
                assert(old_rows[p as int].cylinder < old_rows[i].cylinder);
            }
            assert(i == p);
        }
        let mut row = self.rows.remove(p);
        row.max_errors.push(max_err);
        self.rows.insert(p, row);
        assert forall|i: int|
            0 <= i < self.rows@.len() implies (#[trigger] self.rows@[i]).cylinder == old_rows[i].cylinder
                && self.rows@[i].max_errors@ == if old_rows[i].cylinder == cylinder {
                old_rows[i].max_errors@.push(max_err)
            } else {
                old_rows[i].max_errors@
            } by {
            if i != p {
                if i < p {
                    assert(old_rows[i].cylinder < cylinder);
                } else {
                    assert(old_rows[p as int].cylinder < old_rows[i].cylinder);
                }
            }
        }
    }
}

} // verus!
