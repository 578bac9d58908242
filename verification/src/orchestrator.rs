//! The pipeline orchestrator: session lifecycle, the per-tick
//! estimate / reconstruct / pose computation, and rate control.
//!
//! The session state machine moves `Idle -> Starting -> Running ->
//! Stopping -> Idle`, with `Faulted` reached when a sub-component fails to
//! construct.  The host loop performs the outside work (camera reads,
//! model inference, the actual sleep and sends) and feeds plain values to
//! the functions here, which make every decision.

use vstd::prelude::*;
use crate::errors::TrackError;
use crate::engine::{CropPolicy, TDDFA, LIM_RAW, PARAM_LEN, LANDMARK_COUNT};
use crate::fixed::bounded;
use crate::geometry::{roi_pad_size, roi_spec, RoiBox, ROI_COORD_LIM};
use crate::pose::{pitch_spec, roll_spec, row_sq_spec, isqrt_spec, yaw_spec, PI_FX};

verus! {

/// Default face bounding box for the first cycle of a session, in 16.16
/// fixed point pixels.
pub const DEFAULT_FACE_BOX: i64 = 9830400;

/// Lifecycle phase of a tracking session.
#[derive(Clone, Copy, Debug, PartialEq, Eq, Structural)]
pub enum Phase {
    /// No session active.
    Idle,
    /// Sub-components are being constructed.
    Starting,
    /// The steady loop is running.
    Running,
    /// A stop was requested; the worker is winding down.
    Stopping,
    /// Construction failed; the session never ran.
    Faulted,
}

/// The configuration a session captures by value when it starts.
#[derive(Clone, Copy, Debug)]
pub struct SessionConfig {
    /// Index of the camera device to open.
    pub camera_index: u32,
    /// Baseline filter cutoff (fixed point).
    pub min_cutoff: i64,
    /// Filter speed coefficient (fixed point).
    pub beta: i64,
    /// Target ticks per second.
    pub fps: u32,
    /// Destination IPv4 address.
    pub ip: [u8; 4],
    /// Destination port.
    pub port: u16,
}

/// The shared control state of the tracker: the phase, the run flag the
/// worker polls, the captured configuration, and the last error published
/// to the control surface.
pub struct Session {
    /// Current lifecycle phase.
    pub phase: Phase,
    /// Cleared to ask the worker loop to exit.
    pub run_flag: bool,
    /// Configuration captured when the session started.
    pub active: Option<SessionConfig>,
    /// Last session-ending error, for the control surface.
    pub last_error: Option<TrackError>,
}

impl Session {
    /// A fresh tracker: idle, no error.
    pub fn new() -> (r: Session)
        ensures
            r.phase == Phase::Idle,
            !r.run_flag,
            r.active is None,
            r.last_error is None,
    {
        Session { phase: Phase::Idle, run_flag: false, active: None, last_error: None }
    }

    /// A start request is honoured only when no session is active.
    pub open spec fn can_start(self) -> bool {
        self.phase == Phase::Idle || self.phase == Phase::Faulted
    }

    /// Requests a session start.  When idle (or faulted from an earlier
    /// attempt), captures the configuration by value, clears the error and
    /// enters `Starting`; otherwise nothing changes.
    pub fn request_start(&mut self, cfg: SessionConfig) -> (started: bool)
        ensures
            started == old(self).can_start(),
            started ==> *final(self) == (Session {
                phase: Phase::Starting,
                run_flag: true,
                active: Some(cfg),
                last_error: None,
            }),
            !started ==> *final(self) == *old(self),
    {
        match self.phase {
            Phase::Idle | Phase::Faulted => {
                self.phase = Phase::Starting;
                self.run_flag = true;
                self.active = Some(cfg);
                self.last_error = None;
                true
            },
            _ => false,
        }
    }

    /// All sub-components constructed: the steady loop begins.
    pub fn mark_running(&mut self)
        requires
            old(self).phase == Phase::Starting,
        ensures
            *final(self) == (Session { phase: Phase::Running, ..*old(self) }),
    {
        self.phase = Phase::Running;
    }

    /// A session-fatal failure.  During `Starting` the session faults
    /// without ever running; during `Running` it winds down through
    /// `Stopping`.  Either way the run flag clears and the error is
    /// published.
    pub fn fail(&mut self, e: TrackError)
        requires
            old(self).phase == Phase::Starting || old(self).phase == Phase::Running,
            e.is_fatal_spec(),
        ensures
            *final(self) == (Session {
                phase: if old(self).phase == Phase::Starting {
                    Phase::Faulted
                } else {
                    Phase::Stopping
                },
                run_flag: false,
                last_error: Some(e),
                ..*old(self)
            }),
    {
        match self.phase {
            Phase::Starting => {
                self.phase = Phase::Faulted;
            },
            _ => {
                self.phase = Phase::Stopping;
            },
        }
        self.run_flag = false;
        self.last_error = Some(e);
    }

    /// Requests a stop.  On an active session the run flag clears and the
    /// phase moves to `Stopping`; on a session that is not running this is
    /// a no-op: nothing changes and no panic occurs.
    pub fn request_stop(&mut self) -> (was_active: bool)
        ensures
            was_active == (old(self).phase == Phase::Starting || old(self).phase
                == Phase::Running),
            was_active ==> *final(self) == (Session {
                phase: Phase::Stopping,
                run_flag: false,
                ..*old(self)
            }),
            !was_active ==> *final(self) == *old(self),
    {
        match self.phase {
            Phase::Starting | Phase::Running => {
                self.phase = Phase::Stopping;
                self.run_flag = false;
                true
            },
            _ => false,
        }
    }

    /// The worker thread has been joined: the session's resources are
    /// gone and the tracker is idle again.  The last error stays readable.
    pub fn finish_join(&mut self)
        requires
            old(self).phase == Phase::Stopping,
        ensures
            *final(self) == (Session {
                phase: Phase::Idle,
                run_flag: false,
                active: None,
                ..*old(self)
            }),
    {
        self.phase = Phase::Idle;
        self.run_flag = false;
        self.active = None;
    }

    /// Outcome of one tick's error, observed by the loop.  A recoverable
    /// error (a bad frame, a degenerate crop) changes nothing: the tick is
    /// skipped and the loop continues.  A fatal one winds the session
    /// down.
    pub fn on_tick_error(&mut self, e: TrackError)
        requires
            old(self).phase == Phase::Running,
        ensures
            !e.is_fatal_spec() ==> *final(self) == *old(self),
            e.is_fatal_spec() ==> *final(self) == (Session {
                phase: Phase::Stopping,
                run_flag: false,
                last_error: Some(e),
                ..*old(self)
            }),
    {
        if e.is_fatal() {
            self.fail(e);
        }
    }

    /// Whether the worker loop should keep ticking.
    pub fn is_running(&self) -> (r: bool)
        ensures
            r == self.run_flag,
    {
        self.run_flag
    }

    /// The last session-ending error, for the control surface.
    pub fn read_last_error(&self) -> (r: Option<TrackError>)
        ensures
            r == self.last_error,
    {
        self.last_error
    }
}

/// The tick period in milliseconds for a target rate: `1000 / fps`.
pub fn period_ms(fps: u32) -> (p: u64)
    requires
        1 <= fps <= 1000,
    ensures
        p == 1000int / (fps as int),
        1 <= p <= 1000,
{
    proof {
        vstd::arithmetic::div_mod::lemma_div_is_ordered_by_denominator(1000, fps as int, 1000);
        vstd::arithmetic::div_mod::lemma_div_nonincreasing(1000, fps as int);
    }
    (1000u64) / (fps as u64)
}

/// How long the loop sleeps after a tick that took `elapsed`
/// milliseconds: the remainder of the period, never negative.  The total
/// tick spacing `elapsed + sleep` never undercuts the period.
pub fn sleep_ms(period: u64, elapsed: u64) -> (d: u64)
    requires
        period <= 1000,
    ensures
        d == if elapsed >= period {
            0u64
        } else {
            (period - elapsed) as u64
        },
        elapsed + d >= period,
        d <= period,
{
    if elapsed >= period {
        0
    } else {
        period - elapsed
    }
}

/// The orchestrator's frame drain policy: each tick consumes the newest
/// available frame and falls back to the previous one when the capture
/// channel is empty, so freshness wins over completeness.
pub fn drain_frame(latest: Option<crate::image::Frame>, last: crate::image::Frame) -> (r:
    crate::image::Frame)
    ensures
        latest is Some ==> r == latest->0,
        latest is None ==> r == last,
{
    match latest {
        Some(f) => f,
        None => last,
    }
}

/// The per-session estimation pipeline state: the engine, the first
/// cycle's face box, and the previous cycle's landmarks, which seed the
/// next cycle's crop region.
pub struct ProcessHeadPose {
    /// The dense alignment engine.
    pub tddfa: TDDFA,
    /// Bounding box used by the very first cycle.
    pub face_box: [i64; 4],
    /// The previous cycle's reconstructed landmarks (three rows of 68).
    pub pts_3d: Vec<Vec<i64>>,
    /// Whether a first cycle has seeded the landmark policy.
    pub warmed: bool,
}

/// Every coordinate of a landmark row set lies within `lim`.
pub open spec fn rows_bounded_spec(v: Seq<Vec<i64>>, lim: int) -> bool {
    forall|i: int, j: int| 0 <= i < v.len() && 0 <= j < v[i]@.len() ==> bounded(
        #[trigger] v[i]@[j] as int,
        lim,
    )
}

/// Checks that every coordinate of the row set lies within `lim`.
fn rows_bounded(v: &Vec<Vec<i64>>, lim: i64) -> (r: bool)
    requires
        0 <= lim,
    ensures
        r == rows_bounded_spec(v@, lim as int),
{
    let mut i: usize = 0;
    while i < v.len()
        invariant
            0 <= i <= v@.len(),
            0 <= lim,
            forall|k: int, j: int| 0 <= k < i && 0 <= j < v@[k]@.len() ==> bounded(
                #[trigger] v@[k]@[j] as int,
                lim as int,
            ),
        decreases v@.len() - i,
    {
        let row = &v[i];
        let mut j: usize = 0;
        while j < row.len()
            invariant
                0 <= i < v@.len(),
                0 <= j <= row@.len(),
                row@ == v@[i as int]@,
                0 <= lim,
                forall|jj: int| 0 <= jj < j ==> bounded(#[trigger] row@[jj] as int, lim as int),
            decreases row@.len() - j,
        {
            let x = row[j];
            if x > lim || x < -lim {
                return false;
            }
            j = j + 1;
        }
        proof {
            assert(forall|jj: int| 0 <= jj < v@[i as int]@.len() ==> bounded(
                #[trigger] v@[i as int]@[jj] as int,
                lim as int,
            ));
        }
        i = i + 1;
    }
    true
}

/// A single out-of-range reconstructed coordinate refutes seedability.
proof fn lemma_not_seedable(p: ProcessHeadPose, raw: Seq<i64>, j: int)
    requires
        0 <= j < LANDMARK_COUNT,
        !bounded(p.tddfa.out_x_spec(p.processed_spec(raw), p.roi_now(), j), ROI_COORD_LIM as int)
            || !bounded(
            p.tddfa.out_y_spec(p.processed_spec(raw), p.roi_now(), j),
            ROI_COORD_LIM as int,
        ) || !bounded(
            p.tddfa.out_z_spec(p.processed_spec(raw), p.roi_now(), j),
            ROI_COORD_LIM as int,
        ),
    ensures
        !p.seedable_spec(raw),
{
    if p.seedable_spec(raw) {
        assert(bounded(
            p.tddfa.out_x_spec(p.processed_spec(raw), p.roi_now(), j),
            ROI_COORD_LIM as int,
        ) && bounded(
            p.tddfa.out_y_spec(p.processed_spec(raw), p.roi_now(), j),
            ROI_COORD_LIM as int,
        ) && bounded(
            p.tddfa.out_z_spec(p.processed_spec(raw), p.roi_now(), j),
            ROI_COORD_LIM as int,
        ));
    }
}

impl ProcessHeadPose {
    /// The pipeline state invariant: a well-formed engine, a bounded face
    /// box, and landmarks that can seed the next crop region.
    pub open spec fn wf(self) -> bool {
        &&& self.tddfa.wf()
        &&& forall|i: int| 0 <= i < 4 ==> bounded(
            #[trigger] self.face_box[i] as int,
            ROI_COORD_LIM as int,
        )
        &&& self.pts_3d@.len() == 3
        &&& forall|i: int| 0 <= i < 3 ==> (#[trigger] self.pts_3d@[i])@.len() == LANDMARK_COUNT
        &&& rows_bounded_spec(self.pts_3d@, ROI_COORD_LIM as int)
    }

    /// The crop policy the next cycle will use.
    pub open spec fn policy_spec(self) -> CropPolicy {
        if self.warmed {
            CropPolicy::Landmark
        } else {
            CropPolicy::BoundingBox
        }
    }

    /// The processed parameter vector the engine would produce from a raw
    /// model output.
    pub open spec fn processed_spec(self, raw: Seq<i64>) -> Seq<i64> {
        Seq::new(PARAM_LEN as nat, |i: int| self.tddfa.rescaled_spec(raw, i) as i64)
    }

    /// The extent box the next cycle pads into its crop region.
    pub open spec fn extent_now(self) -> (int, int, int, int) {
        self.tddfa.extent_spec(&self.face_box, &self.pts_3d, self.policy_spec())
    }

    /// The crop region the next cycle derives, when the extent is not
    /// degenerate.
    pub open spec fn roi_now(self) -> RoiBox {
        let (bx0, by0, bx1, by1) = self.extent_now();
        roi_spec(bx0, by0, bx1, by1)
    }

    /// Every reconstructed coordinate is small enough to seed the next
    /// cycle's crop region.
    pub open spec fn seedable_spec(self, raw: Seq<i64>) -> bool {
        forall|c: int| 0 <= c < LANDMARK_COUNT ==> {
            &&& bounded(
                #[trigger] self.tddfa.out_x_spec(self.processed_spec(raw), self.roi_now(), c),
                ROI_COORD_LIM as int,
            )
            &&& bounded(
                self.tddfa.out_y_spec(self.processed_spec(raw), self.roi_now(), c),
                ROI_COORD_LIM as int,
            )
            &&& bounded(
                self.tddfa.out_z_spec(self.processed_spec(raw), self.roi_now(), c),
                ROI_COORD_LIM as int,
            )
        }
    }

    /// Whether one cycle on `raw` succeeds: the crop region is
    /// non-degenerate, every reconstructed coordinate is in range and can
    /// seed the next cycle, and the pose block has non-zero row norms.
    pub open spec fn tick_ok_spec(self, raw: Seq<i64>) -> bool {
        let pp = self.processed_spec(raw);
        let (bx0, by0, bx1, by1) = self.extent_now();
        let roi = roi_spec(bx0, by0, bx1, by1);
        &&& roi_pad_size(bx0, by0, bx1, by1) > 0
        &&& forall|c: int| 0 <= c < LANDMARK_COUNT ==> self.tddfa.out_in_range(pp, roi, c)
        &&& self.seedable_spec(raw)
        &&& isqrt_spec(row_sq_spec(pp, 0) as nat) > 0
        &&& isqrt_spec(row_sq_spec(pp, 4) as nat) > 0
    }

    /// Builds the pipeline state around a constructed engine, with the
    /// default first-cycle face box and placeholder landmarks.
    pub fn new(tddfa: TDDFA) -> (r: ProcessHeadPose)
        requires
            tddfa.wf(),
        ensures
            r.wf(),
            !r.warmed,
            r.tddfa == tddfa,
    {
        let face_box: [i64; 4] = [
            DEFAULT_FACE_BOX,
            DEFAULT_FACE_BOX,
            DEFAULT_FACE_BOX * 2,
            DEFAULT_FACE_BOX * 2,
        ];
        let mut pts: Vec<Vec<i64>> = Vec::new();
        let mut i: usize = 0;
        while i < 3
            invariant
                0 <= i <= 3,
                pts@.len() == i,
                forall|k: int| 0 <= k < i ==> (#[trigger] pts@[k])@.len() == LANDMARK_COUNT,
                rows_bounded_spec(pts@, ROI_COORD_LIM as int),
            decreases 3 - i,
        {
            let mut row: Vec<i64> = Vec::new();
            let mut j: usize = 0;
            while j < LANDMARK_COUNT
                invariant
                    0 <= j <= LANDMARK_COUNT,
                    row@.len() == j,
                    forall|jj: int| 0 <= jj < j ==> #[trigger] row@[jj] == 0i64,
                decreases LANDMARK_COUNT - j,
            {
                row.push(0);
                j = j + 1;
            }
            pts.push(row);
            i = i + 1;
        }
        ProcessHeadPose { tddfa, face_box, pts_3d: pts, warmed: false }
    }

    /// One estimation cycle, given the landmark model's raw output for the
    /// current crop: derive the crop region (face box on the first cycle,
    /// previous landmarks afterwards), rescale the raw vector, reconstruct
    /// the landmarks for the next cycle, and recover the pose.
    ///
    /// Succeeds exactly when the cycle is geometrically sound
    /// ([`Self::tick_ok_spec`]); any failure is recoverable, leaves the
    /// state untouched, and skips the tick.  On success the result is the
    /// 6-DOF vector `[0, 0, 0, yaw, -pitch, roll]` in fixed point radians
    /// and the landmarks are stored to seed the next cycle.
    pub fn single_iter(&mut self, raw_param: &Vec<i64>) -> (r: Result<Vec<i64>, TrackError>)
        requires
            old(self).wf(),
            raw_param@.len() == PARAM_LEN,
            forall|i: int| 0 <= i < raw_param@.len() ==> bounded(
                #[trigger] raw_param@[i] as int,
                LIM_RAW as int,
            ),
        ensures
            final(self).wf(),
            final(self).tddfa == old(self).tddfa,
            final(self).face_box == old(self).face_box,
            r is Ok <==> old(self).tick_ok_spec(raw_param@),
            r is Ok ==> ({
                let pp = old(self).processed_spec(raw_param@);
                let (bx0, by0, bx1, by1) = old(self).extent_now();
                let roi = roi_spec(bx0, by0, bx1, by1);
                let v = r->Ok_0;
                &&& v@.len() == 6
                &&& v@[0] == 0i64
                &&& v@[1] == 0i64
                &&& v@[2] == 0i64
                &&& v@[3] as int == yaw_spec(pp)
                &&& v@[4] as int == -pitch_spec(pp)
                &&& v@[5] as int == roll_spec(pp)
                &&& forall|k: int| 0 <= k < 6 ==> bounded(#[trigger] v@[k] as int, PI_FX as int)
                &&& final(self).warmed
                &&& forall|c: int| 0 <= c < LANDMARK_COUNT
                    ==> #[trigger] final(self).pts_3d@[0]@[c] as int == old(
                    self,
                ).tddfa.out_x_spec(pp, roi, c)
                &&& forall|c: int| 0 <= c < LANDMARK_COUNT
                    ==> #[trigger] final(self).pts_3d@[1]@[c] as int == old(
                    self,
                ).tddfa.out_y_spec(pp, roi, c)
                &&& forall|c: int| 0 <= c < LANDMARK_COUNT
                    ==> #[trigger] final(self).pts_3d@[2]@[c] as int == old(
                    self,
                ).tddfa.out_z_spec(pp, roi, c)
            }),
            r is Err ==> *final(self) == *old(self),
            r is Err ==> (r->Err_0 == TrackError::InvalidRoi || r->Err_0
                == TrackError::DecodeSkip) && !r->Err_0.is_fatal_spec(),
    {
        let policy = if self.warmed {
            CropPolicy::Landmark
        } else {
            CropPolicy::BoundingBox
        };
        let (param, roi) = match self.tddfa.run(raw_param, &self.face_box, &self.pts_3d, policy) {
            Ok(p) => p,
            Err(e) => {
                return Err(e);
            },
        };
        proof {
            let pp = old(self).processed_spec(raw_param@);
            assert forall|i: int| 0 <= i < PARAM_LEN implies param@[i] == pp[i] by {
                assert(param@[i] as int == self.tddfa.rescaled_spec(raw_param@, i));
            }
            assert(param@ =~= pp);
            let (bx0, by0, bx1, by1) = old(self).extent_now();
            if old(self).warmed {
                crate::geometry::lemma_seq_extremes_bounded(
                    old(self).pts_3d@[0]@,
                    ROI_COORD_LIM as int,
                );
                crate::geometry::lemma_seq_extremes_bounded(
                    old(self).pts_3d@[1]@,
                    ROI_COORD_LIM as int,
                );
            }
            crate::geometry::lemma_roi_spec_bounded(bx0, by0, bx1, by1);
        }
        let pts = match self.tddfa.recon_vers(&param, &roi) {
            Ok(p) => p,
            Err(e) => {
                return Err(e);
            },
        };
        let pts_ok = rows_bounded(&pts, ROI_COORD_LIM);
        proof {
            let pp = old(self).processed_spec(raw_param@);
            let rnow = old(self).roi_now();
            let (bx0, by0, bx1, by1) = old(self).extent_now();
            assert(rnow == roi_spec(bx0, by0, bx1, by1));
            if pts_ok {
                assert forall|c: int| 0 <= c < LANDMARK_COUNT implies {
                    &&& bounded(
                        #[trigger] old(self).tddfa.out_x_spec(pp, rnow, c),
                        ROI_COORD_LIM as int,
                    )
                    &&& bounded(old(self).tddfa.out_y_spec(pp, rnow, c), ROI_COORD_LIM as int)
                    &&& bounded(old(self).tddfa.out_z_spec(pp, rnow, c), ROI_COORD_LIM as int)
                } by {
                    assert(bounded(pts@[0]@[c] as int, ROI_COORD_LIM as int));
                    assert(bounded(pts@[1]@[c] as int, ROI_COORD_LIM as int));
                    assert(bounded(pts@[2]@[c] as int, ROI_COORD_LIM as int));
                }
                assert(old(self).seedable_spec(raw_param@));
            } else {
                assert(exists|i: int, j: int|
                    0 <= i < pts@.len() && 0 <= j < pts@[i]@.len() && !bounded(
                        #[trigger] pts@[i]@[j] as int,
                        ROI_COORD_LIM as int,
                    ));
                let (i, j) = choose|i: int, j: int|
                    0 <= i < pts@.len() && 0 <= j < pts@[i]@.len() && !bounded(
                        #[trigger] pts@[i]@[j] as int,
                        ROI_COORD_LIM as int,
                    );
                assert(0 <= j < LANDMARK_COUNT);
                if i == 0 {
                    assert(pts@[0]@[j] as int == old(self).tddfa.out_x_spec(pp, rnow, j));
                } else if i == 1 {
                    assert(pts@[1]@[j] as int == old(self).tddfa.out_y_spec(pp, rnow, j));
                } else {
                    assert(pts@[2]@[j] as int == old(self).tddfa.out_z_spec(pp, rnow, j));
                }
                lemma_not_seedable(*old(self), raw_param@, j);
                assert(!old(self).tick_ok_spec(raw_param@));
            }
        }
        if !pts_ok {
            return Err(TrackError::DecodeSkip);
        }
        let (_rot, pose) = match crate::pose::calc_pose(&param) {
            Ok(p) => p,
            Err(e) => {
                return Err(e);
            },
        };
        self.pts_3d = pts;
        self.warmed = true;
        let mut out: Vec<i64> = Vec::new();
        out.push(0);
        out.push(0);
        out.push(0);
        out.push(pose[0]);
        let p1: i64 = pose[1];
        out.push(-p1);
        out.push(pose[2]);
        Ok(out)
    }
}

} // verus!
