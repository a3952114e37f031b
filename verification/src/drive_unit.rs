//! The slow signals of a floppy drive: motor timeout, drive selection and where the head
//! is, and how the head gets to a cylinder. The pins themselves stay outside; here they
//! are the levels the firmware drives.
use vstd::prelude::*;

use crate::types::{Density, DriveSelectState, Track};

verus! {

/// The drive's head position is either unknown or known at a certain position.
#[derive(Debug, Clone, Copy, PartialEq, Eq, Structural)]
pub enum HeadPosition {
    /// The head might be anywhere: the state after power up.
    Unknown,
    /// The head is on this cylinder.
    Cylinder(u32),
}

#[derive(Debug, Clone, Copy, PartialEq, Eq, Structural)]
pub enum MotorState {
    Off,
    /// On, with the milliseconds left until it stops by itself.
    On(u32),
}

/// How long the motor keeps spinning after its last use, in milliseconds.
pub const MOTOR_RUN_TIME: u32 = 600;

/// The state of one floppy drive.
#[derive(Debug, Clone, Copy, PartialEq, Eq, Structural)]
pub struct FloppyDriveUnit {
    /// The motor enable output is driven low.
    pub motor_enabled: bool,
    /// The drive select output is driven low.
    pub drive_selected: bool,
    pub motor_state: MotorState,
    /// `None` while the stepper holds the position.
    pub head_position: Option<HeadPosition>,
}

/// The drive is deselected unless the motor runs or the stepper holds the head position.
pub open spec fn selection_after_release(d: FloppyDriveUnit) -> bool {
    if d.motor_state == MotorState::Off && d.head_position is Some {
        false
    } else {
        d.drive_selected
    }
}

impl FloppyDriveUnit {
    /// A drive after power up: motor off, not selected, head position unknown.
    pub fn new() -> (r: Self)
        ensures
            r == (FloppyDriveUnit {
                motor_enabled: false,
                drive_selected: false,
                motor_state: MotorState::Off,
                head_position: Some(HeadPosition::Unknown),
            }),
    {
        FloppyDriveUnit {
            motor_enabled: false,
            drive_selected: false,
            motor_state: MotorState::Off,
            head_position: Some(HeadPosition::Unknown),
        }
    }

    /// Called about every millisecond: counts the motor's time down and stops it at the end.
    pub fn run(&mut self)
        ensures
            *final(self) == run_unit(*old(self)),
    {
        if let MotorState::On(count) = self.motor_state {
            if count > 0 {
                self.motor_state = MotorState::On(count - 1);
            } else {
                self.stop_motor();
            }
        }
    }

    /// Starts the motor and selects the drive.
    /// Calls [`Self::run`] `k` times, as `k` milliseconds pass.
    pub fn run_for(&mut self, k: u32)
        ensures
            *final(self) == run_units(*old(self), k as nat),
    {
        let ghost start = *self;
        let mut i: u32 = 0;
        while i < k
            invariant
                i <= k,
                *self == run_units(start, i as nat),
            decreases k - i,
        {
            self.run();
            i = i + 1;
        }
    }

    pub fn spin_motor(&mut self)
        ensures
            *final(self) == (FloppyDriveUnit {
                motor_enabled: true,
                drive_selected: true,
                motor_state: MotorState::On(MOTOR_RUN_TIME),
                ..*old(self)
            }),
    {
        self.motor_enabled = true;
        self.drive_selected = true;
        self.motor_state = MotorState::On(MOTOR_RUN_TIME);
    }

    /// Deselects the drive if neither the motor runs nor the head is being stepped.
    pub fn disable_select_signal_if_possible(&mut self)
        ensures
            *final(self) == (FloppyDriveUnit { drive_selected: selection_after_release(*old(self)), ..*old(self) }),
    {
        if self.motor_state == MotorState::Off && self.head_position.is_some() {
            self.drive_selected = false;
        }
    }

    /// Whether the drive is selected.
    pub fn selection_signal_active(&self) -> (r: bool)
        ensures
            r == self.drive_selected,
    {
        self.drive_selected
    }

    /// Stops the motor and deselects the drive where possible.
    pub fn stop_motor(&mut self)
        ensures
            *final(self) == stopped(*old(self)),
    {
        self.motor_enabled = false;
        self.motor_state = MotorState::Off;
        self.disable_select_signal_if_possible();
    }

    /// Whether the motor runs.
    pub fn is_spinning(&self) -> (r: bool)
        ensures
            r == (self.motor_state is On),
    {
        match self.motor_state {
            MotorState::On(_) => true,
            MotorState::Off => false,
        }
    }

    /// Hands the head position to the stepper and selects the drive for stepping.
    pub fn take_head_position_for_stepping(&mut self) -> (r: HeadPosition)
        requires
            old(self).head_position is Some,
        ensures
            Some(r) == old(self).head_position,
            *final(self) == (FloppyDriveUnit { head_position: None, drive_selected: true, ..*old(self) }),
    {
        let taken = self.head_position.unwrap();
        self.head_position = None;
        self.drive_selected = true;
        taken
    }

    /// Takes the head position back from the stepper.
    pub fn insert_current_head_position(&mut self, pos: HeadPosition)
        requires
            old(self).head_position is None,
        ensures
            *final(self) == (FloppyDriveUnit {
                head_position: Some(pos),
                drive_selected: selection_after_release(FloppyDriveUnit { head_position: Some(pos), ..*old(self) }),
                ..*old(self)
            }),
    {
        self.head_position = Some(pos);
        self.disable_select_signal_if_possible();
    }

    /// Whether the head is known to be on `cylinder`.
    pub fn head_position_equals(&self, cylinder: u32) -> (r: bool)
        ensures
            r == (self.head_position == Some(HeadPosition::Cylinder(cylinder))),
    {
        match self.head_position {
            Some(HeadPosition::Cylinder(c)) => c == cylinder,
            _ => false,
        }
    }
}

/// A drive one millisecond later: a running motor counts down and stops at the end.
pub open spec fn run_unit(d: FloppyDriveUnit) -> FloppyDriveUnit {
    match d.motor_state {
        MotorState::Off => d,
        MotorState::On(count) => if count > 0 {
            FloppyDriveUnit { motor_state: MotorState::On((count - 1) as u32), ..d }
        } else {
            stopped(d)
        },
    }
}

/// The drive after its motor was stopped.
pub open spec fn stopped(d: FloppyDriveUnit) -> FloppyDriveUnit {
    let s = FloppyDriveUnit { motor_enabled: false, motor_state: MotorState::Off, ..d };
    FloppyDriveUnit { drive_selected: selection_after_release(s), ..s }
}

/// The drive after `n` milliseconds.
pub open spec fn run_units(d: FloppyDriveUnit, n: nat) -> FloppyDriveUnit
    decreases n,
{
    if n == 0 {
        d
    } else {
        run_unit(run_units(d, (n - 1) as nat))
    }
}

/// A motor started with `count` milliseconds left keeps running for `count` calls of `run`
/// and is off after one more: the motor stops by itself.
pub proof fn lemma_motor_stops(d: FloppyDriveUnit, count: u32, k: nat)
    requires
        d.motor_state == MotorState::On(count),
        k <= count,
    ensures
        run_units(d, k).motor_state == MotorState::On((count - k) as u32),
        run_units(d, (count + 1) as nat).motor_state == MotorState::Off,
        !run_units(d, (count + 1) as nat).motor_enabled,
    decreases k,
{
    if k > 0 {
        lemma_motor_stops(d, count, (k - 1) as nat);
    }
    lemma_motor_counts_down(d, count, count as nat);
}

proof fn lemma_motor_counts_down(d: FloppyDriveUnit, count: u32, k: nat)
    requires
        d.motor_state == MotorState::On(count),
        k <= count,
    ensures
        run_units(d, k).motor_state == MotorState::On((count - k) as u32),
    decreases k,
{
    if k > 0 {
        lemma_motor_counts_down(d, count, (k - 1) as nat);
    }
}

#[derive(Debug, Clone, Copy, PartialEq, Eq, Structural)]
pub enum StepDirection {
    Inward,
    Outward,
}

/// How many steps at most are tried to find cylinder 0.
pub const SEEK_TRACK0_STEPS: u32 = 90;

/// The steps that take the head from cylinder `current` to cylinder `wanted`: none where it
/// is there already, else the direction and the distance.
pub open spec fn step_plan_spec(current: u32, wanted: u32) -> Option<(StepDirection, u32)> {
    if current == wanted {
        None
    } else if current < wanted {
        Some((StepDirection::Inward, (wanted - current) as u32))
    } else {
        Some((StepDirection::Outward, (current - wanted) as u32))
    }
}

/// Plans the steps from a known cylinder to another.
pub fn step_plan(current: u32, wanted: u32) -> (r: Option<(StepDirection, u32)>)
    ensures
        r == step_plan_spec(current, wanted),
{
    if current == wanted {
        None
    } else if current < wanted {
        Some((StepDirection::Inward, wanted - current))
    } else {
        Some((StepDirection::Outward, current - wanted))
    }
}

/// The cylinder that `steps` steps in `direction` lead to from `current`.
pub open spec fn after_steps(current: int, direction: StepDirection, steps: int) -> int {
    match direction {
        StepDirection::Inward => current + steps,
        StepDirection::Outward => current - steps,
    }
}

/// Following the plan puts the head on the wanted cylinder.
pub proof fn lemma_step_plan_arrives(current: u32, wanted: u32)
    ensures
        match step_plan_spec(current, wanted) {
            None => current == wanted,
            Some((d, n)) => after_steps(current as int, d, n as int) == wanted && n > 0,
        },
{
}

/// Where the head is after a seek for cylinder 0 that did or did not see the track 0
/// signal.
pub fn position_after_seek(track0_found: bool) -> (r: HeadPosition)
    ensures
        track0_found ==> r == HeadPosition::Cylinder(0),
        !track0_found ==> r == HeadPosition::Unknown,
{
    if track0_found {
        HeadPosition::Cylinder(0)
    } else {
        HeadPosition::Unknown
    }
}

/// The track 0 signal is active after pulse `k` (counted from 0) of a seek; a reading that is
/// not there counts as inactive.
pub open spec fn track0_seen(readings: Seq<bool>, k: int) -> bool {
    0 <= k < readings.len() && readings[k]
}

/// The number of outward pulses of a seek for cylinder 0 from pulse `k` on: pulses are given
/// until the track 0 signal is active after one, at most `SEEK_TRACK0_STEPS` in all.
pub open spec fn seek_pulses_from(readings: Seq<bool>, k: nat) -> nat
    decreases SEEK_TRACK0_STEPS - k,
{
    if k >= SEEK_TRACK0_STEPS {
        k
    } else if track0_seen(readings, k as int) {
        k + 1
    } else {
        seek_pulses_from(readings, k + 1)
    }
}

proof fn lemma_seek_pulses_bound(readings: Seq<bool>, k: nat)
    requires
        k <= SEEK_TRACK0_STEPS,
    ensures
        k <= seek_pulses_from(readings, k) <= SEEK_TRACK0_STEPS,
        k < SEEK_TRACK0_STEPS ==> k < seek_pulses_from(readings, k),
        forall|j: int| k <= j < seek_pulses_from(readings, k) - 1 ==> !track0_seen(readings, j),
        seek_pulses_from(readings, k) < SEEK_TRACK0_STEPS ==> track0_seen(
            readings,
            seek_pulses_from(readings, k) - 1,
        ),
    decreases SEEK_TRACK0_STEPS - k,
{
    if k < SEEK_TRACK0_STEPS && !track0_seen(readings, k as int) {
        lemma_seek_pulses_bound(readings, k + 1);
    }
}

/// What the stepper does to bring the head to a cylinder.
#[derive(Debug, Clone, Copy, PartialEq, Eq)]
pub struct StepperPlan {
    /// Pulses given outward to find cylinder 0 first.
    pub seek_pulses: u32,
    /// The direction and number of pulses from the cylinder the head is known to be on.
    pub steps: Option<(StepDirection, u32)>,
    /// Where the head is afterwards.
    pub result: HeadPosition,
}

/// The plan of the stepper for a head at `current` and the cylinder `wanted`, given what the
/// track 0 signal shows after each seek pulse and after the head settled from the seek.
pub open spec fn stepper_plan_spec(
    current: HeadPosition,
    wanted: u32,
    readings: Seq<bool>,
    track0_after_settle: bool,
) -> StepperPlan {
    match current {
        HeadPosition::Cylinder(p) => StepperPlan {
            seek_pulses: 0,
            steps: step_plan_spec(p, wanted),
            result: HeadPosition::Cylinder(wanted),
        },
        HeadPosition::Unknown => {
            let n = seek_pulses_from(readings, 0) as u32;
            if track0_after_settle {
                StepperPlan {
                    seek_pulses: n,
                    steps: step_plan_spec(0, wanted),
                    result: HeadPosition::Cylinder(wanted),
                }
            } else {
                StepperPlan { seek_pulses: n, steps: None, result: HeadPosition::Unknown }
            }
        },
    }
}

/// Plans a head movement. From a known cylinder the head steps straight to the wanted one.
/// From an unknown position it first steps outward, one pulse after the other, until the
/// track 0 signal shows after a pulse, at most `SEEK_TRACK0_STEPS` pulses; where the signal
/// does not show after the head settled, the position stays unknown and nothing more is
/// done, else the head goes on from cylinder 0.
pub fn stepper_plan(
    current: HeadPosition,
    wanted: u32,
    track0_after_pulse: &[bool],
    track0_after_settle: bool,
) -> (r: StepperPlan)
    ensures
        r == stepper_plan_spec(current, wanted, track0_after_pulse@, track0_after_settle),
        r.seek_pulses <= SEEK_TRACK0_STEPS,
        current is Unknown ==> r.seek_pulses >= 1,
{
    match current {
        HeadPosition::Cylinder(p) => StepperPlan {
            seek_pulses: 0,
            steps: step_plan(p, wanted),
            result: HeadPosition::Cylinder(wanted),
        },
        HeadPosition::Unknown => {
            let ghost readings = track0_after_pulse@;
            let mut pulses: u32 = 0;
            proof {
                lemma_seek_pulses_bound(readings, 0);
            }
            loop
                invariant_except_break
                    pulses < SEEK_TRACK0_STEPS,
                    seek_pulses_from(readings, pulses as nat) == seek_pulses_from(readings, 0),
                invariant
                    readings == track0_after_pulse@,
                ensures
                    pulses == seek_pulses_from(readings, 0),
                    1 <= pulses <= SEEK_TRACK0_STEPS,
                decreases SEEK_TRACK0_STEPS - pulses,
            {
                let seen = (pulses as usize) < track0_after_pulse.len()
                    && track0_after_pulse[pulses as usize];
                assert(seen == track0_seen(readings, pulses as int));
                proof {
                    if !seen && pulses + 1 == SEEK_TRACK0_STEPS {
                        assert(seek_pulses_from(readings, (pulses + 1) as nat) == SEEK_TRACK0_STEPS);
                    }
                }
                pulses = pulses + 1;
                if seen || pulses == SEEK_TRACK0_STEPS {
                    break;
                }
            }
            if track0_after_settle {
                StepperPlan {
                    seek_pulses: pulses,
                    steps: step_plan(0, wanted),
                    result: HeadPosition::Cylinder(wanted),
                }
            } else {
                StepperPlan { seek_pulses: pulses, steps: None, result: HeadPosition::Unknown }
            }
        },
    }
}

/// A head movement that the stepper has to perform: from where the head is to a cylinder.
#[derive(Debug, Clone, Copy, PartialEq, Eq, Structural)]
pub struct StepRequest {
    pub from: HeadPosition,
    pub to: u32,
}

/// Both drives of the controller, which one is selected, the levels of the shared outputs
/// and whether the stepper is busy.
#[derive(Debug, Clone, Copy, PartialEq, Eq, Structural)]
pub struct FloppyControl {
    pub drive_a: FloppyDriveUnit,
    pub drive_b: FloppyDriveUnit,
    pub drive_select: DriveSelectState,
    /// The density output is driven high.
    pub density_high: bool,
    /// The head select output is driven high, which selects head 0.
    pub head_select_high: bool,
    /// The stepper moves the head of the selected drive.
    pub stepping: bool,
}

/// The selected drive, if any.
pub open spec fn selected_unit(c: FloppyControl) -> Option<FloppyDriveUnit> {
    match c.drive_select {
        DriveSelectState::Unselected => None,
        DriveSelectState::A => Some(c.drive_a),
        DriveSelectState::B => Some(c.drive_b),
    }
}

/// `c` with the selected drive replaced by `d`.
pub open spec fn with_selected(c: FloppyControl, d: FloppyDriveUnit) -> FloppyControl {
    match c.drive_select {
        DriveSelectState::Unselected => c,
        DriveSelectState::A => FloppyControl { drive_a: d, ..c },
        DriveSelectState::B => FloppyControl { drive_b: d, ..c },
    }
}

impl FloppyControl {
    /// A controller with no drive selected and an idle stepper.
    pub fn new(drive_a: FloppyDriveUnit, drive_b: FloppyDriveUnit) -> (r: Self)
        ensures
            r == (FloppyControl {
                drive_a,
                drive_b,
                drive_select: DriveSelectState::Unselected,
                density_high: false,
                head_select_high: false,
                stepping: false,
            }),
    {
        FloppyControl {
            drive_a,
            drive_b,
            drive_select: DriveSelectState::Unselected,
            density_high: false,
            head_select_high: false,
            stepping: false,
        }
    }

    pub fn select_density(&mut self, dens: Density)
        ensures
            *final(self) == (FloppyControl { density_high: dens == Density::High, ..*old(self) }),
    {
        self.density_high = match dens {
            Density::High => true,
            Density::SingleDouble => false,
        };
    }

    pub fn select_drive(&mut self, state: DriveSelectState)
        ensures
            *final(self) == (FloppyControl { drive_select: state, ..*old(self) }),
    {
        self.drive_select = state;
    }

    /// The selected drive, if any.
    pub fn selected_drive_unit_ref(&self) -> (r: Option<&FloppyDriveUnit>)
        ensures
            match selected_unit(*self) {
                None => r is None,
                Some(d) => r == Some(&d),
            },
    {
        match self.drive_select {
            DriveSelectState::Unselected => None,
            DriveSelectState::A => Some(&self.drive_a),
            DriveSelectState::B => Some(&self.drive_b),
        }
    }

    /// Starts the motor of the selected drive.
    pub fn spin_motor(&mut self)
        ensures
            match selected_unit(*old(self)) {
                None => *final(self) == *old(self),
                Some(d) => *final(self) == with_selected(
                    *old(self),
                    FloppyDriveUnit {
                        motor_enabled: true,
                        drive_selected: true,
                        motor_state: MotorState::On(MOTOR_RUN_TIME),
                        ..d
                    },
                ),
            },
    {
        match self.drive_select {
            DriveSelectState::Unselected => {},
            DriveSelectState::A => self.drive_a.spin_motor(),
            DriveSelectState::B => self.drive_b.spin_motor(),
        }
    }

    /// Stops the motor of the selected drive.
    pub fn stop_motor(&mut self)
        ensures
            match selected_unit(*old(self)) {
                None => *final(self) == *old(self),
                Some(d) => *final(self) == with_selected(*old(self), stopped(d)),
            },
    {
        match self.drive_select {
            DriveSelectState::Unselected => {},
            DriveSelectState::A => self.drive_a.stop_motor(),
            DriveSelectState::B => self.drive_b.stop_motor(),
        }
    }

    /// Whether the motor of the selected drive runs.
    pub fn is_spinning(&self) -> (r: bool)
        ensures
            r == (selected_unit(*self) matches Some(d) && d.motor_state is On),
    {
        match self.drive_select {
            DriveSelectState::Unselected => false,
            DriveSelectState::A => self.drive_a.is_spinning(),
            DriveSelectState::B => self.drive_b.is_spinning(),
        }
    }

    /// Selects the head of a track and, where the selected drive's head is not known to be
    /// on its cylinder, hands the head position to the stepper: the returned request says
    /// from where to where it has to move.
    pub fn select_track(&mut self, track: Track) -> (r: Option<StepRequest>)
        requires
            selected_unit(*old(self)) is Some,
            selected_unit(*old(self)).unwrap().head_position is Some,
            !old(self).stepping,
        ensures
            final(self).head_select_high == (track.head.0 == 0),
            selected_unit(*old(self)).unwrap().head_position == Some(HeadPosition::Cylinder(track.cylinder.0 as u32))
                ==> r is None && *final(self) == (FloppyControl { head_select_high: track.head.0 == 0, ..*old(self) }),
            selected_unit(*old(self)).unwrap().head_position != Some(HeadPosition::Cylinder(track.cylinder.0 as u32))
                ==> {
                let d = selected_unit(*old(self)).unwrap();
                &&& r == Some(StepRequest { from: d.head_position.unwrap(), to: track.cylinder.0 as u32 })
                &&& *final(self) == FloppyControl {
                    head_select_high: track.head.0 == 0,
                    stepping: true,
                    ..with_selected(*old(self), FloppyDriveUnit { head_position: None, drive_selected: true, ..d })
                }
            },
    {
        let wanted_cylinder = track.cylinder.0 as u32;
        let request = match self.drive_select {
            DriveSelectState::A => {
                if self.drive_a.head_position_equals(wanted_cylinder) {
                    None
                } else {
                    Some(StepRequest { from: self.drive_a.take_head_position_for_stepping(), to: wanted_cylinder })
                }
            },
            _ => {
                if self.drive_b.head_position_equals(wanted_cylinder) {
                    None
                } else {
                    Some(StepRequest { from: self.drive_b.take_head_position_for_stepping(), to: wanted_cylinder })
                }
            },
        };
        if request.is_some() {
            self.stepping = true;
        }
        self.head_select_high = track.head.0 == 0;
        request
    }

    /// Whether the head has arrived on the selected cylinder.
    pub fn reached_selected_cylinder(&self) -> (r: bool)
        ensures
            r == !self.stepping,
    {
        !self.stepping
    }

    /// The stepper is done: the selected drive gets the head position back.
    pub fn step_finished(&mut self, position: HeadPosition)
        requires
            old(self).stepping,
            selected_unit(*old(self)) is Some,
            selected_unit(*old(self)).unwrap().head_position is None,
        ensures
            !final(self).stepping,
            selected_unit(*final(self)) is Some,
            selected_unit(*final(self)).unwrap().head_position == Some(position),
    {
        match self.drive_select {
            DriveSelectState::A => self.drive_a.insert_current_head_position(position),
            _ => self.drive_b.insert_current_head_position(position),
        }
        self.stepping = false;
    }

    /// Called about every millisecond: runs the motor timeouts of both drives.
    pub fn run(&mut self)
        ensures
            *final(self) == (FloppyControl {
                drive_a: run_unit(old(self).drive_a),
                drive_b: run_unit(old(self).drive_b),
                ..*old(self)
            }),
    {
        self.drive_a.run();
        self.drive_b.run();
    }
}

} // verus!
