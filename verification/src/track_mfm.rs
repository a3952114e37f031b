//! The order queue of the device's MFM track writer: an order to write waits for the index
//! pulse, then hands out the track's bytes one by one.
use std::collections::VecDeque;

use vstd::prelude::*;

verus! {

/// An order for the track writer.
#[derive(Debug, Clone, PartialEq, Eq)]
pub enum Order {
    Write(u8, Vec<u8>),
    Verify(u8),
}

/// The result of an order.
#[derive(Debug, Clone, Copy, PartialEq, Eq, Structural)]
pub enum Response {
    Write(u8, bool),
    Verify(u8, bool),
}

#[derive(Debug, Clone, Copy, PartialEq, Eq, Structural)]
pub enum TrackState {
    Idle,
    WaitingForIndexToWrite,
    WritingTrack,
    WaitingForIndexToVerify,
    VerifyingTrack,
}

/// The track writer: its state, the orders still to do, their results, and the track
/// being written with the position of the next byte.
pub struct MfmTrackHandler {
    pub state: TrackState,
    pub order_queue: VecDeque<Order>,
    pub result_queue: VecDeque<Response>,
    pub track_data: Option<(Vec<u8>, usize)>,
}

impl MfmTrackHandler {
    /// While waiting to write and while writing there is a track, and its position is within it.
    pub open spec fn wf(&self) -> bool {
        &&& self.state == TrackState::WritingTrack ==> self.track_data is Some
        &&& self.state == TrackState::WaitingForIndexToWrite ==> self.track_data is Some
        &&& self.track_data matches Some((d, p)) ==> p <= d@.len()
    }

    pub fn new() -> (r: Self)
        ensures
            r.wf(),
            r.state == TrackState::Idle,
            r.order_queue@.len() == 0,
            r.result_queue@.len() == 0,
            r.track_data is None,
    {
        MfmTrackHandler { state: TrackState::Idle, order_queue: VecDeque::new(), result_queue: VecDeque::new(), track_data: None }
    }

    /// The index pulse starts a write or verification that waits for it.
    pub fn index(&mut self)
        requires
            old(self).wf(),
        ensures
            final(self).wf(),
            final(self).order_queue@ == old(self).order_queue@,
            final(self).result_queue@ == old(self).result_queue@,
            final(self).track_data == old(self).track_data,
            final(self).state == match old(self).state {
                TrackState::WaitingForIndexToWrite => TrackState::WritingTrack,
                TrackState::WaitingForIndexToVerify => TrackState::VerifyingTrack,
                s => s,
            },
    {
        match self.state {
            TrackState::WaitingForIndexToWrite => self.state = TrackState::WritingTrack,
            TrackState::WaitingForIndexToVerify => self.state = TrackState::VerifyingTrack,
            _ => {},
        }
    }

    /// One step of the writer: when idle it takes the next order, and while writing it
    /// hands out the next byte of the track, moving on to verification after the last.
    pub fn run(&mut self) -> (out: Option<u8>)
        requires
            old(self).wf(),
            old(self).state != TrackState::VerifyingTrack,
        ensures
            final(self).wf(),
            final(self).result_queue@ == old(self).result_queue@,
            match old(self).state {
                TrackState::Idle => {
                    &&& out is None
                    &&& if old(self).order_queue@.len() == 0 {
                        final(self).order_queue@ == old(self).order_queue@ && final(self).state == TrackState::Idle
                            && final(self).track_data == old(self).track_data
                    } else {
                        &&& final(self).order_queue@ == old(self).order_queue@.drop_first()
                        &&& match old(self).order_queue@[0] {
                            Order::Write(_, d) => final(self).state == TrackState::WaitingForIndexToWrite
                                && final(self).track_data == Some((d, 0usize)),
                            Order::Verify(_) => final(self).state == TrackState::Idle
                                && final(self).track_data == old(self).track_data,
                        }
                    }
                },
                TrackState::WritingTrack => {
                    let (d, p) = old(self).track_data.unwrap();
                    &&& final(self).order_queue@ == old(self).order_queue@
                    &&& if p < d@.len() {
                        &&& out == Some(d@[p as int])
                        &&& final(self).state == TrackState::WritingTrack
                        &&& final(self).track_data matches Some((d2, p2)) && d2@ == d@ && p2 == p + 1
                    } else {
                        out is None && final(self).state == TrackState::VerifyingTrack
                            && final(self).track_data == old(self).track_data
                    }
                },
                s => out is None && final(self).state == s && final(self).order_queue@ == old(self).order_queue@
                    && final(self).track_data == old(self).track_data,
            },
    {
        match self.state {
            TrackState::Idle => {
                match self.order_queue.pop_front() {
                    Some(Order::Write(_, data)) => {
                        self.track_data = Some((data, 0));
                        self.state = TrackState::WaitingForIndexToWrite;
                    },
                    Some(Order::Verify(_)) => {},
                    None => {},
                }
                None
            },
            TrackState::WritingTrack => {
                let (data, pos) = self.track_data.take().unwrap();
                if pos < data.len() {
                    let byte = data[pos];
                    self.track_data = Some((data, pos + 1));
                    Some(byte)
                } else {
                    self.track_data = Some((data, pos));
                    self.state = TrackState::VerifyingTrack;
                    None
                }
            },
            _ => None,
        }
    }
}

} // verus!
