use vstd::prelude::*;

verus! {

/// Direction of travel from the CAM `DriveDirection` field.
#[derive(Clone, Copy, PartialEq, Eq, Debug, Structural)]
pub enum DriveDirection {
    Forward,
    Backward,
    Unavailable,
}

impl DriveDirection {
    /// Maps the raw CAM `DriveDirection` value (0/1/2) to the typed enum.
    /// Returns `None` for any value outside the standard range.
    pub fn from_raw(val: u8) -> (res: Option<Self>)
        ensures
            val == 0 ==> res == Some(DriveDirection::Forward),
            val == 1 ==> res == Some(DriveDirection::Backward),
            val == 2 ==> res == Some(DriveDirection::Unavailable),
            val > 2 ==> res.is_none(),
    {
        match val {
            0 => Some(DriveDirection::Forward),
            1 => Some(DriveDirection::Backward),
            2 => Some(DriveDirection::Unavailable),
            _ => None,
        }
    }
}

} // verus!

verus! {

/// Exterior-light flags of a decoded CAM.
#[derive(Clone, Copy, PartialEq, Eq, Debug, Structural)]
pub struct ExteriorLights {
    pub low_beam: bool,
    pub high_beam: bool,
    pub left_turn: bool,
    pub right_turn: bool,
    pub daytime_running: bool,
    pub reverse_light: bool,
}

/// Acceleration-control flags of a decoded CAM.
#[derive(Clone, Copy, PartialEq, Eq, Debug, Structural)]
pub struct AccelControl {
    pub brake_pedal_active: bool,
    pub gas_pedal_active: bool,
    pub emergency_brake_active: bool,
    pub collision_warning_active: bool,
    pub acc_engaged: bool,
    pub cruise_control_active: bool,
    pub speed_limiter_active: bool,
}

/// The light + motion state at a single point in the playback timeline.
#[derive(Clone, Copy, PartialEq, Eq, Debug, Structural)]
pub struct PlaybackLightState {
    pub no_light: bool,
    pub daytime_running: bool,
    pub low_beam: bool,
    pub high_beam: bool,
    pub left_blinker: bool,
    pub right_blinker: bool,
    pub hazard: bool,
    pub brake: bool,
    pub accelerating: bool,
    pub acc_engaged: bool,
    pub cruise_control_active: bool,
    pub speed_limiter_active: bool,
    pub reverse_light: bool,
}

/// The state before any CAM was seen: daytime running lights on, everything else off.
pub open spec fn initial_lights() -> PlaybackLightState {
    PlaybackLightState {
        no_light: false,
        daytime_running: true,
        low_beam: false,
        high_beam: false,
        left_blinker: false,
        right_blinker: false,
        hazard: false,
        brake: false,
        accelerating: false,
        acc_engaged: false,
        cruise_control_active: false,
        speed_limiter_active: false,
        reverse_light: false,
    }
}

impl Default for PlaybackLightState {
    fn default() -> (res: Self)
        ensures
            res == initial_lights(),
    {
        PlaybackLightState {
            no_light: false,
            daytime_running: true,
            low_beam: false,
            high_beam: false,
            left_blinker: false,
            right_blinker: false,
            hazard: false,
            brake: false,
            accelerating: false,
            acc_engaged: false,
            cruise_control_active: false,
            speed_limiter_active: false,
            reverse_light: false,
        }
    }
}

/// The light state after a CAM: exterior lights (when present) replace the light fields,
/// both indicators at once read as hazard lights; acceleration-control flags (when present)
/// replace the pedal/ADAS fields; whatever the CAM lacks is carried over from `prev`.
pub open spec fn next_lights(
    lights: Option<ExteriorLights>,
    accel: Option<AccelControl>,
    prev: PlaybackLightState,
) -> PlaybackLightState {
    let brake: bool = match accel { Some(a) => a.brake_pedal_active, None => prev.brake };
    let accelerating: bool = match accel { Some(a) => a.gas_pedal_active, None => prev.accelerating };
    let acc_engaged: bool = match accel { Some(a) => a.acc_engaged, None => prev.acc_engaged };
    let cruise: bool = match accel { Some(a) => a.cruise_control_active, None => prev.cruise_control_active };
    let limiter: bool = match accel { Some(a) => a.speed_limiter_active, None => prev.speed_limiter_active };
    match lights {
        Some(e) => PlaybackLightState {
            no_light: false,
            daytime_running: e.daytime_running,
            low_beam: e.low_beam,
            high_beam: e.high_beam,
            left_blinker: e.left_turn && !e.right_turn,
            right_blinker: e.right_turn && !e.left_turn,
            hazard: e.left_turn && e.right_turn,
            brake,
            accelerating,
            acc_engaged,
            cruise_control_active: cruise,
            speed_limiter_active: limiter,
            reverse_light: e.reverse_light,
        },
        None => PlaybackLightState {
            brake,
            accelerating,
            acc_engaged,
            cruise_control_active: cruise,
            speed_limiter_active: limiter,
            ..prev
        },
    }
}

/// Derives the light state from a CAM's exterior-light and acceleration-control containers,
/// keeping the previous value of everything the CAM does not carry.
pub fn lights_from_cam(
    lights: Option<ExteriorLights>,
    accel: Option<AccelControl>,
    prev: &PlaybackLightState,
) -> (res: PlaybackLightState)
    ensures
        res == next_lights(lights, accel, *prev),
{
    let brake: bool = match accel { Some(a) => a.brake_pedal_active, None => prev.brake };
    let accelerating: bool = match accel { Some(a) => a.gas_pedal_active, None => prev.accelerating };
    let acc_engaged: bool = match accel { Some(a) => a.acc_engaged, None => prev.acc_engaged };
    let cruise: bool = match accel { Some(a) => a.cruise_control_active, None => prev.cruise_control_active };
    let limiter: bool = match accel { Some(a) => a.speed_limiter_active, None => prev.speed_limiter_active };
    match lights {
        Some(e) => {
            let hazard: bool = e.left_turn && e.right_turn;
            PlaybackLightState {
                no_light: false,
                daytime_running: e.daytime_running,
                low_beam: e.low_beam,
                high_beam: e.high_beam,
                left_blinker: e.left_turn && !hazard,
                right_blinker: e.right_turn && !hazard,
                hazard,
                brake,
                accelerating,
                acc_engaged,
                cruise_control_active: cruise,
                speed_limiter_active: limiter,
                reverse_light: e.reverse_light,
            }
        },
        None => PlaybackLightState {
            brake,
            accelerating,
            acc_engaged,
            cruise_control_active: cruise,
            speed_limiter_active: limiter,
            ..*prev
        },
    }
}

/// What a CAM does to the light state: an acceleration-control container sets the pedal and
/// ADAS flags to the values it reports, whether or not the CAM also carries exterior lights; an
/// exterior-lights container sets the beams, daytime and reverse lights to the values it
/// reports, switches "no light" off and shows both indicators as hazard lights; a flag the CAM
/// does not carry keeps its previous value.
pub proof fn lemma_cam_sets_reported_flags(
    lights: Option<ExteriorLights>,
    accel: Option<AccelControl>,
    prev: PlaybackLightState,
)
    ensures
        ({
            let r: PlaybackLightState = next_lights(lights, accel, prev);
            &&& (accel matches Some(a) ==> {
                &&& r.brake == a.brake_pedal_active
                &&& r.accelerating == a.gas_pedal_active
                &&& r.acc_engaged == a.acc_engaged
                &&& r.cruise_control_active == a.cruise_control_active
                &&& r.speed_limiter_active == a.speed_limiter_active
            })
            &&& (accel is None ==> {
                &&& r.brake == prev.brake
                &&& r.accelerating == prev.accelerating
                &&& r.acc_engaged == prev.acc_engaged
                &&& r.cruise_control_active == prev.cruise_control_active
                &&& r.speed_limiter_active == prev.speed_limiter_active
            })
            &&& (lights matches Some(e) ==> {
                &&& !r.no_light
                &&& r.low_beam == e.low_beam
                &&& r.high_beam == e.high_beam
                &&& r.daytime_running == e.daytime_running
                &&& r.reverse_light == e.reverse_light
                &&& r.hazard == (e.left_turn && e.right_turn)
                &&& r.left_blinker == (e.left_turn && !e.right_turn)
                &&& r.right_blinker == (e.right_turn && !e.left_turn)
            })
            &&& (lights is None ==> {
                &&& r.no_light == prev.no_light
                &&& r.low_beam == prev.low_beam
                &&& r.high_beam == prev.high_beam
                &&& r.daytime_running == prev.daytime_running
                &&& r.reverse_light == prev.reverse_light
                &&& r.hazard == prev.hazard
                &&& r.left_blinker == prev.left_blinker
                &&& r.right_blinker == prev.right_blinker
            })
        }),
{
}

/// The acceleration-control flags do not depend on the exterior lights: a CAM with and one
/// without an exterior-lights container leave the same pedal and ADAS flags.
pub proof fn lemma_accel_flags_ignore_lights(
    lights1: Option<ExteriorLights>,
    lights2: Option<ExteriorLights>,
    accel: Option<AccelControl>,
    prev: PlaybackLightState,
)
    ensures
        next_lights(lights1, accel, prev).brake == next_lights(lights2, accel, prev).brake,
        next_lights(lights1, accel, prev).accelerating == next_lights(lights2, accel, prev).accelerating,
        next_lights(lights1, accel, prev).acc_engaged == next_lights(lights2, accel, prev).acc_engaged,
        next_lights(lights1, accel, prev).cruise_control_active == next_lights(lights2, accel, prev).cruise_control_active,
        next_lights(lights1, accel, prev).speed_limiter_active == next_lights(lights2, accel, prev).speed_limiter_active,
{
}

/// Hazard lights and a single indicator never show together.
pub open spec fn indicators_consistent(s: PlaybackLightState) -> bool {
    s.hazard ==> !s.left_blinker && !s.right_blinker
}

/// Every light state the playback derives keeps hazard and single indicators exclusive,
/// starting from the initial state.
pub proof fn lemma_lights_keep_indicators_consistent(
    lights: Option<ExteriorLights>,
    accel: Option<AccelControl>,
    prev: PlaybackLightState,
)
    requires
        indicators_consistent(prev),
    ensures
        indicators_consistent(next_lights(lights, accel, prev)),
        indicators_consistent(initial_lights()),
{
}

} // verus!
