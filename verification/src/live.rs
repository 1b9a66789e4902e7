use vstd::prelude::*;
use crate::order::{is_stable_order, stable_order};
use crate::text::{clone_strings, dec, parse_unsigned, parse_unsigned_str, prefixed_number};
use crate::trajectory::{DriveDirection, PlaybackLightState};

verus! {

/// Source of the live view.
#[derive(Clone, Copy, PartialEq, Eq, Debug, Structural)]
pub enum LiveMode {
    Demo,
    Online,
    Offline,
}

impl LiveMode {
    /// Label shown in the controls bar.
    pub fn label(&self) -> (res: &'static str)
        ensures
            *self == LiveMode::Demo ==> res@ == "Demo"@,
            *self == LiveMode::Online ==> res@ == "Online"@,
            *self == LiveMode::Offline ==> res@ == "Offline"@,
    {
        match self {
            LiveMode::Demo => "Demo",
            LiveMode::Online => "Online",
            LiveMode::Offline => "Offline",
        }
    }

    /// The mode the "Change Mode" button switches to (Demo, Online, Offline, Demo, ...).
    pub fn next(&self) -> (res: LiveMode)
        ensures
            *self == LiveMode::Demo ==> res == LiveMode::Online,
            *self == LiveMode::Online ==> res == LiveMode::Offline,
            *self == LiveMode::Offline ==> res == LiveMode::Demo,
    {
        match self {
            LiveMode::Demo => LiveMode::Online,
            LiveMode::Online => LiveMode::Offline,
            LiveMode::Offline => LiveMode::Demo,
        }
    }
}

/// Pressing "Change Mode" three times returns to the starting mode, visiting all three.
pub proof fn lemma_mode_cycle(m: LiveMode)
    ensures
        mode_after(mode_after(mode_after(m))) == m,
        mode_after(m) != m,
        mode_after(mode_after(m)) != m,
{
}

/// The mode that follows `m`.
pub open spec fn mode_after(m: LiveMode) -> LiveMode {
    match m {
        LiveMode::Demo => LiveMode::Online,
        LiveMode::Online => LiveMode::Offline,
        LiveMode::Offline => LiveMode::Demo,
    }
}

/// Real-time state of a monitored vehicle: lights, ADAS flags and the identifying data of the
/// playback sample it was taken from. (Speed and heading, which are measured values, travel
/// next to it.)
#[derive(Clone, Debug)]
pub struct VehicleState {
    // exterior lights
    pub no_light: bool,
    pub daytime_running: bool,
    pub low_beam: bool,
    pub high_beam: bool,
    pub left_blinker: bool,
    pub right_blinker: bool,
    pub hazard: bool,
    // motion
    pub brake: bool,
    pub accelerating: bool,
    // adas
    pub acc_engaged: bool,
    pub cruise_control_active: bool,
    pub speed_limiter_active: bool,
    // telemetry (populated during playback)
    pub mac: String,
    pub drive_direction: Option<DriveDirection>,
}

/// The light, motion and ADAS flags of a vehicle state.
pub open spec fn flags_of(s: VehicleState) -> PlaybackLightState {
    PlaybackLightState {
        no_light: s.no_light,
        daytime_running: s.daytime_running,
        low_beam: s.low_beam,
        high_beam: s.high_beam,
        left_blinker: s.left_blinker,
        right_blinker: s.right_blinker,
        hazard: s.hazard,
        brake: s.brake,
        accelerating: s.accelerating,
        acc_engaged: s.acc_engaged,
        cruise_control_active: s.cruise_control_active,
        speed_limiter_active: s.speed_limiter_active,
        reverse_light: false,
    }
}

/// Demo controls of the live view.
#[derive(Clone, Copy, PartialEq, Eq, Debug, Structural)]
pub enum DemoControl {
    NoLight,
    DaytimeRunning,
    LowBeam,
    HighBeam,
    Left,
    Right,
    Hazard,
    Brake,
    Accelerate,
}

impl VehicleState {
    /// The state shown before any data arrives: daytime running lights on, everything else
    /// off, no MAC and no direction.
    pub fn new() -> (res: Self)
        ensures
            flags_of(res) == crate::trajectory::initial_lights(),
            res.mac@.len() == 0,
            res.drive_direction is None,
    {
        VehicleState {
            no_light: false,
            daytime_running: true,
            low_beam: false,
            high_beam: false,
            left_blinker: false,
            right_blinker: false,
            hazard: false,
            brake: false,
            accelerating: false,
            acc_engaged: false,
            cruise_control_active: false,
            speed_limiter_active: false,
            mac: String::new(),
            drive_direction: None,
        }
    }

    /// The left indicator blinks for a left turn and for hazard lights.
    pub fn blink_left(&self) -> (res: bool)
        ensures
            res == (self.left_blinker || self.hazard),
    {
        self.left_blinker || self.hazard
    }

    /// The right indicator blinks for a right turn and for hazard lights.
    pub fn blink_right(&self) -> (res: bool)
        ensures
            res == (self.right_blinker || self.hazard),
    {
        self.right_blinker || self.hazard
    }

    /// The state shown for a playback sample: its light state, MAC and drive direction.
    pub fn from_playback(lights: &PlaybackLightState, mac: &String, drive_direction: Option<DriveDirection>) -> (res: Self)
        ensures
            flags_of(res) == (PlaybackLightState { reverse_light: false, ..*lights }),
            res.mac@ == mac@,
            res.drive_direction == drive_direction,
    {
        VehicleState {
            no_light: lights.no_light,
            daytime_running: lights.daytime_running,
            low_beam: lights.low_beam,
            high_beam: lights.high_beam,
            left_blinker: lights.left_blinker,
            right_blinker: lights.right_blinker,
            hazard: lights.hazard,
            brake: lights.brake,
            accelerating: lights.accelerating,
            acc_engaged: lights.acc_engaged,
            cruise_control_active: lights.cruise_control_active,
            speed_limiter_active: lights.speed_limiter_active,
            mac: mac.clone(),
            drive_direction,
        }
    }

    /// The light, motion and ADAS flags of this state.
    pub fn flags(&self) -> (res: PlaybackLightState)
        ensures
            res == flags_of(*self),
    {
        PlaybackLightState {
            no_light: self.no_light,
            daytime_running: self.daytime_running,
            low_beam: self.low_beam,
            high_beam: self.high_beam,
            left_blinker: self.left_blinker,
            right_blinker: self.right_blinker,
            hazard: self.hazard,
            brake: self.brake,
            accelerating: self.accelerating,
            acc_engaged: self.acc_engaged,
            cruise_control_active: self.cruise_control_active,
            speed_limiter_active: self.speed_limiter_active,
            reverse_light: false,
        }
    }

    fn set_flags(&mut self, f: PlaybackLightState)
        ensures
            final(self).mac == old(self).mac,
            final(self).drive_direction == old(self).drive_direction,
            flags_of(*final(self)) == (PlaybackLightState { reverse_light: false, ..f }),
    {
        self.no_light = f.no_light;
        self.daytime_running = f.daytime_running;
        self.low_beam = f.low_beam;
        self.high_beam = f.high_beam;
        self.left_blinker = f.left_blinker;
        self.right_blinker = f.right_blinker;
        self.hazard = f.hazard;
        self.brake = f.brake;
        self.accelerating = f.accelerating;
        self.acc_engaged = f.acc_engaged;
        self.cruise_control_active = f.cruise_control_active;
        self.speed_limiter_active = f.speed_limiter_active;
    }

    /// A demo button press: flips the selected flag; switching an indicator on switches the
    /// hazard lights off, switching the hazard lights on switches both indicators off.
    pub fn toggle(&mut self, control: DemoControl)
        ensures
            final(self).mac == old(self).mac,
            final(self).drive_direction == old(self).drive_direction,
            flags_of(*final(self)) == demo_toggled(flags_of(*old(self)), control),
    {
        let f: PlaybackLightState = self.flags();
        let g: PlaybackLightState = toggled(f, control);
        self.set_flags(g);
    }
}

fn toggled(s: PlaybackLightState, control: DemoControl) -> (res: PlaybackLightState)
    ensures
        res == demo_toggled(s, control),
{
    match control {
        DemoControl::NoLight => PlaybackLightState { no_light: !s.no_light, ..s },
        DemoControl::DaytimeRunning => PlaybackLightState { daytime_running: !s.daytime_running, ..s },
        DemoControl::LowBeam => PlaybackLightState { low_beam: !s.low_beam, ..s },
        DemoControl::HighBeam => PlaybackLightState { high_beam: !s.high_beam, ..s },
        DemoControl::Left => PlaybackLightState {
            left_blinker: !s.left_blinker,
            hazard: if !s.left_blinker { false } else { s.hazard },
            ..s
        },
        DemoControl::Right => PlaybackLightState {
            right_blinker: !s.right_blinker,
            hazard: if !s.right_blinker { false } else { s.hazard },
            ..s
        },
        DemoControl::Hazard => PlaybackLightState {
            hazard: !s.hazard,
            left_blinker: if !s.hazard { false } else { s.left_blinker },
            right_blinker: if !s.hazard { false } else { s.right_blinker },
            ..s
        },
        DemoControl::Brake => PlaybackLightState { brake: !s.brake, ..s },
        DemoControl::Accelerate => PlaybackLightState { accelerating: !s.accelerating, ..s },
    }
}

/// The flags after pressing a demo control.
pub open spec fn demo_toggled(s: PlaybackLightState, control: DemoControl) -> PlaybackLightState {
    match control {
        DemoControl::NoLight => PlaybackLightState { no_light: !s.no_light, ..s },
        DemoControl::DaytimeRunning => PlaybackLightState { daytime_running: !s.daytime_running, ..s },
        DemoControl::LowBeam => PlaybackLightState { low_beam: !s.low_beam, ..s },
        DemoControl::HighBeam => PlaybackLightState { high_beam: !s.high_beam, ..s },
        DemoControl::Left => PlaybackLightState {
            left_blinker: !s.left_blinker,
            hazard: if !s.left_blinker { false } else { s.hazard },
            ..s
        },
        DemoControl::Right => PlaybackLightState {
            right_blinker: !s.right_blinker,
            hazard: if !s.right_blinker { false } else { s.hazard },
            ..s
        },
        DemoControl::Hazard => PlaybackLightState {
            hazard: !s.hazard,
            left_blinker: if !s.hazard { false } else { s.left_blinker },
            right_blinker: if !s.hazard { false } else { s.right_blinker },
            ..s
        },
        DemoControl::Brake => PlaybackLightState { brake: !s.brake, ..s },
        DemoControl::Accelerate => PlaybackLightState { accelerating: !s.accelerating, ..s },
    }
}

/// The demo controls never show hazard lights together with a single indicator, and pressing
/// a control other than an indicator or the hazard switch twice restores the state.
pub proof fn lemma_demo_controls(s: PlaybackLightState, control: DemoControl)
    ensures
        crate::trajectory::indicators_consistent(s)
            ==> crate::trajectory::indicators_consistent(demo_toggled(s, control)),
        control != DemoControl::Left && control != DemoControl::Right && control != DemoControl::Hazard
            ==> demo_toggled(demo_toggled(s, control), control) == s,
{
}

/// CSS class of the headlights of a vehicle state.
pub open spec fn headlight_class(s: VehicleState) -> Seq<char> {
    if s.no_light || (!s.daytime_running && !s.low_beam && !s.high_beam) {
        "headlight off"@
    } else if s.high_beam {
        "headlight high-beam"@
    } else if s.low_beam {
        "headlight low-beam"@
    } else {
        "headlight off"@
    }
}

/// CSS class of the headlights: off without any light, otherwise high beam over low beam;
/// daytime running lights alone leave the headlights off.
pub fn headlight_css(s: &VehicleState) -> (res: &'static str)
    ensures
        res@ == headlight_class(*s),
{
    if s.no_light || (!s.daytime_running && !s.low_beam && !s.high_beam) {
        "headlight off"
    } else if s.high_beam {
        "headlight high-beam"
    } else if s.low_beam {
        "headlight low-beam"
    } else {
        "headlight off"
    }
}

/// CSS class of a turn signal.
pub fn turn_css(active: bool) -> (res: &'static str)
    ensures
        res@ == (if active { "turn-signal blinking"@ } else { "turn-signal"@ }),
{
    if active { "turn-signal blinking" } else { "turn-signal" }
}

/// CSS class of the tail lights.
pub fn tail_css(brake: bool) -> (res: &'static str)
    ensures
        res@ == (if brake { "tail-light brake"@ } else { "tail-light"@ }),
{
    if brake { "tail-light brake" } else { "tail-light" }
}

/// CSS class of the acceleration lines.
pub fn accel_css(active: bool) -> (res: &'static str)
    ensures
        res@ == (if active { "accel-line active"@ } else { "accel-line"@ }),
{
    if active { "accel-line active" } else { "accel-line" }
}

/// CSS class of an ADAS badge (ACC, CC, SL).
pub fn adas_badge_css(active: bool) -> (res: &'static str)
    ensures
        res@ == (if active { "adas-badge active"@ } else { "adas-badge"@ }),
{
    if active { "adas-badge active" } else { "adas-badge" }
}

/// Everything the top-down car drawing derives from a vehicle state.
#[derive(Clone, Copy, Debug)]
pub struct CarVisual {
    pub headlight: &'static str,
    pub tail: &'static str,
    pub left_signal: &'static str,
    pub right_signal: &'static str,
    pub accel: &'static str,
    /// Daytime-running accent strips are drawn.
    pub drl: bool,
    /// High-beam rays are drawn.
    pub high_beam_rays: bool,
    pub forward_arrow: bool,
    pub backward_arrow: bool,
    pub acc_badge: &'static str,
    pub cruise_badge: &'static str,
    pub limiter_badge: &'static str,
}

/// Derives the drawing of the car: light classes, accent strips, beam rays, the direction
/// arrow and the ADAS badges.
pub fn car_visual(s: &VehicleState) -> (res: CarVisual)
    ensures
        res.headlight@ == headlight_class(*s),
        res.tail@ == (if s.brake { "tail-light brake"@ } else { "tail-light"@ }),
        res.left_signal@ == (if s.left_blinker || s.hazard { "turn-signal blinking"@ } else { "turn-signal"@ }),
        res.right_signal@ == (if s.right_blinker || s.hazard { "turn-signal blinking"@ } else { "turn-signal"@ }),
        res.accel@ == (if s.accelerating { "accel-line active"@ } else { "accel-line"@ }),
        res.drl == (!s.no_light && (s.daytime_running || s.low_beam || s.high_beam)),
        res.high_beam_rays == s.high_beam,
        res.forward_arrow == (s.drive_direction == Some(DriveDirection::Forward)),
        res.backward_arrow == (s.drive_direction == Some(DriveDirection::Backward)),
        res.acc_badge@ == (if s.acc_engaged { "adas-badge active"@ } else { "adas-badge"@ }),
        res.cruise_badge@ == (if s.cruise_control_active { "adas-badge active"@ } else { "adas-badge"@ }),
        res.limiter_badge@ == (if s.speed_limiter_active { "adas-badge active"@ } else { "adas-badge"@ }),
{
    let forward: bool = match s.drive_direction {
        Some(DriveDirection::Forward) => true,
        _ => false,
    };
    let backward: bool = match s.drive_direction {
        Some(DriveDirection::Backward) => true,
        _ => false,
    };
    CarVisual {
        headlight: headlight_css(s),
        tail: tail_css(s.brake),
        left_signal: turn_css(s.blink_left()),
        right_signal: turn_css(s.blink_right()),
        accel: accel_css(s.accelerating),
        drl: !s.no_light && (s.daytime_running || s.low_beam || s.high_beam),
        high_beam_rays: s.high_beam,
        forward_arrow: forward,
        backward_arrow: backward,
        acc_badge: adas_badge_css(s.acc_engaged),
        cruise_badge: adas_badge_css(s.cruise_control_active),
        limiter_badge: adas_badge_css(s.speed_limiter_active),
    }
}

/// A vehicle of a loaded capture: tracker ID (0 for the ego vehicle), label and MAC chain.
#[derive(Clone, Debug)]
pub struct OfflineVehicle {
    pub id: u32,
    pub label: String,
    pub macs: Vec<String>,
}

/// A found vehicle as the vehicle tracker reports it.
#[derive(Clone, Debug)]
pub struct TrackerVehicle {
    pub id: u32,
    pub macs: Vec<String>,
}

/// Label and MAC chain of the `i`-th vehicle before sorting: the found vehicles, then the
/// ego vehicle when ego MACs were detected.
pub open spec fn vehicle_entry(found: Seq<TrackerVehicle>, ego: Seq<String>, i: int) -> (u32, Seq<char>, Seq<Seq<char>>) {
    if i < found.len() {
        (found[i].id, "Vehicle "@ + dec(found[i].id as nat), found[i].macs.deep_view())
    } else {
        (0u32, "Ego"@, ego.map_values(|m: String| m@))
    }
}

/// Number of vehicle entries: one per found vehicle, plus the ego vehicle when present.
pub open spec fn vehicle_count(found: Seq<TrackerVehicle>, ego: Seq<String>) -> int {
    found.len() + if ego.len() > 0 { 1int } else { 0int }
}

/// The IDs of the vehicle entries, in entry order.
pub open spec fn vehicle_keys(found: Seq<TrackerVehicle>, ego: Seq<String>) -> Seq<u64> {
    Seq::new(vehicle_count(found, ego) as nat, |i: int| vehicle_entry(found, ego, i).0 as u64)
}

/// The vehicles of a capture, ordered by ID (a stable sort): the found vehicles labelled
/// `Vehicle <id>`, and the ego vehicle as ID 0 labelled `Ego` when ego MACs were detected.
pub fn derive_vehicle_ids(found: &Vec<TrackerVehicle>, ego_macs: &Vec<String>) -> (res: Vec<OfflineVehicle>)
    requires
        found@.len() < usize::MAX,
    ensures
        res@.len() == vehicle_count(found@, ego_macs@),
        exists|order: Seq<usize>| {
            &&& #[trigger] is_stable_order(vehicle_keys(found@, ego_macs@), order)
            &&& forall|k: int| 0 <= k < res@.len() ==> {
                let e = vehicle_entry(found@, ego_macs@, order[k] as int);
                &&& #[trigger] res@[k].id == e.0
                &&& res@[k].label@ == e.1
                &&& res@[k].macs.deep_view() == e.2
            }
        },
{
    let mut entries: Vec<OfflineVehicle> = Vec::new();
    let mut keys: Vec<u64> = Vec::new();
    let mut i: usize = 0;
    while i < found.len()
        invariant
            i <= found@.len(),
            entries@.len() == i,
            keys@.len() == i,
            forall|k: int| 0 <= k < i ==> {
                let e = vehicle_entry(found@, ego_macs@, k);
                &&& #[trigger] entries@[k].id == e.0
                &&& entries@[k].label@ == e.1
                &&& entries@[k].macs.deep_view() == e.2
                &&& keys@[k] == e.0 as u64
            },
        decreases found@.len() - i,
    {
        let t: &TrackerVehicle = &found[i];
        entries.push(OfflineVehicle {
            id: t.id,
            label: prefixed_number("Vehicle ", t.id as u64),
            macs: clone_strings(&t.macs),
        });
        keys.push(t.id as u64);
        proof { reveal_strlit("Vehicle "); }
        i = i + 1;
    }
    if ego_macs.len() > 0 {
        let label: String = String::from_str("Ego");
        let macs: Vec<String> = clone_strings(ego_macs);
        assert(macs.deep_view() =~= ego_macs@.map_values(|m: String| m@));
        entries.push(OfflineVehicle { id: 0, label, macs });
        keys.push(0);
    }
    assert forall|k: int| 0 <= k < entries@.len() implies ({
        let e = vehicle_entry(found@, ego_macs@, k);
        &&& #[trigger] entries@[k].id == e.0
        &&& entries@[k].label@ == e.1
        &&& entries@[k].macs.deep_view() == e.2
        &&& keys@[k] == e.0 as u64
    }) by {}
    let ghost all_keys = vehicle_keys(found@, ego_macs@);
    assert(keys@.len() == vehicle_count(found@, ego_macs@));
    assert forall|k: int| 0 <= k < keys@.len() implies keys@[k] == all_keys[k] by {
        let e = vehicle_entry(found@, ego_macs@, k);
        assert(entries@[k].id == e.0);
    }
    assert(keys@ =~= all_keys);
    let order: Vec<usize> = stable_order(&keys);
    let mut res: Vec<OfflineVehicle> = Vec::new();
    let mut k: usize = 0;
    while k < order.len()
        invariant
            is_stable_order(keys@, order@),
            keys@ == all_keys,
            entries@.len() == keys@.len(),
            entries@.len() == vehicle_count(found@, ego_macs@),
            forall|j: int| 0 <= j < entries@.len() ==> {
                let e = vehicle_entry(found@, ego_macs@, j);
                &&& #[trigger] entries@[j].id == e.0
                &&& entries@[j].label@ == e.1
                &&& entries@[j].macs.deep_view() == e.2
            },
            k <= order@.len(),
            res@.len() == k,
            forall|j: int| 0 <= j < k ==> {
                let e = vehicle_entry(found@, ego_macs@, order@[j] as int);
                &&& #[trigger] res@[j].id == e.0
                &&& res@[j].label@ == e.1
                &&& res@[j].macs.deep_view() == e.2
            },
        decreases order@.len() - k,
    {
        let src: &OfflineVehicle = &entries[order[k]];
        res.push(OfflineVehicle { id: src.id, label: src.label.clone(), macs: clone_strings(&src.macs) });
        k = k + 1;
    }
    assert(is_stable_order(vehicle_keys(found@, ego_macs@), order@));
    assert(forall|j: int| 0 <= j < res@.len() ==> {
        let e = vehicle_entry(found@, ego_macs@, order@[j] as int);
        &&& #[trigger] res@[j].id == e.0
        &&& res@[j].label@ == e.1
        &&& res@[j].macs.deep_view() == e.2
    });
    assert(exists|order: Seq<usize>| {
            &&& #[trigger] is_stable_order(vehicle_keys(found@, ego_macs@), order)
            &&& forall|k: int| 0 <= k < res@.len() ==> {
                let e = vehicle_entry(found@, ego_macs@, order[k] as int);
                &&& #[trigger] res@[k].id == e.0
                &&& res@[k].label@ == e.1
                &&& res@[k].macs.deep_view() == e.2
            }
        }) by {
        let w: Seq<usize> = order@;
        assert(is_stable_order(vehicle_keys(found@, ego_macs@), w));
    }
    res
}

/// Index of the vehicle chosen in the vehicle dropdown: the first vehicle whose ID is the
/// selected value; `None` when the value is not a number or no vehicle has that ID.
pub fn find_selected_vehicle(vehicles: &Vec<OfflineVehicle>, selected: &str) -> (res: Option<usize>)
    ensures
        parse_unsigned(selected@, u32::MAX as nat) is None ==> res is None,
        parse_unsigned(selected@, u32::MAX as nat) matches Some(vid) ==> match res {
            Some(i) => i < vehicles@.len() && vehicles@[i as int].id == vid
                && forall|j: int| 0 <= j < i ==> vehicles@[j].id != vid,
            None => forall|j: int| 0 <= j < vehicles@.len() ==> vehicles@[j].id != vid,
        },
{
    let vid: u64 = match parse_unsigned_str(selected, u32::MAX as u64) {
        Some(v) => v,
        None => return None,
    };
    let mut i: usize = 0;
    while i < vehicles.len()
        invariant
            i <= vehicles@.len(),
            parse_unsigned(selected@, u32::MAX as nat) == Some(vid as nat),
            forall|j: int| 0 <= j < i ==> vehicles@[j].id != vid,
        decreases vehicles@.len() - i,
    {
        if vehicles[i].id as u64 == vid {
            return Some(i);
        }
        i = i + 1;
    }
    None
}

} // verus!

verus! {

/// Number of colours in the trajectory palette.
pub const TRAJ_COLOR_COUNT: usize = 8;

/// The `i`-th colour of the trajectory palette.
pub open spec fn traj_palette(i: int) -> Seq<char> {
    if i == 0 { "#44aaff"@ } else if i == 1 { "#ff7f0e"@ } else if i == 2 { "#2ca02c"@ }
    else if i == 3 { "#d62728"@ } else if i == 4 { "#9467bd"@ } else if i == 5 { "#8c564b"@ }
    else if i == 6 { "#e377c2"@ } else { "#17becf"@ }
}

/// Colour of the `i`-th trajectory: the palette repeats.
pub fn traj_color(i: usize) -> (res: &'static str)
    ensures
        res@ == traj_palette((i % TRAJ_COLOR_COUNT) as int),
{
    let k: usize = i % TRAJ_COLOR_COUNT;
    if k == 0 { "#44aaff" } else if k == 1 { "#ff7f0e" } else if k == 2 { "#2ca02c" }
    else if k == 3 { "#d62728" } else if k == 4 { "#9467bd" } else if k == 5 { "#8c564b" }
    else if k == 6 { "#e377c2" } else { "#17becf" }
}

/// Colour of the MAC `mac` given the ordered MACs `macs` that have a trajectory: that of the
/// last position holding it, the first palette colour when none does.
pub open spec fn mac_color(macs: Seq<Seq<char>>, mac: Seq<char>) -> Seq<char> {
    if exists|i: int| 0 <= i < macs.len() && macs[i] == mac {
        let i: int = choose|i: int| 0 <= i < macs.len() && macs[i] == mac
            && forall|j: int| i < j < macs.len() ==> macs[j] != mac;
        traj_palette(i % (TRAJ_COLOR_COUNT as int))
    } else {
        traj_palette(0)
    }
}

/// Colour of each playback point: the colour of its MAC's trajectory.
pub fn point_colors(macs: &Vec<String>, point_macs: &Vec<String>) -> (res: Vec<&'static str>)
    ensures
        res@.len() == point_macs@.len(),
        forall|k: int| 0 <= k < res@.len() ==> (#[trigger] res@[k])@ == mac_color(macs.deep_view(), point_macs@[k]@),
{
    let mut res: Vec<&'static str> = Vec::new();
    let mut k: usize = 0;
    while k < point_macs.len()
        invariant
            k <= point_macs@.len(),
            res@.len() == k,
            forall|j: int| 0 <= j < k ==> (#[trigger] res@[j])@ == mac_color(macs.deep_view(), point_macs@[j]@),
        decreases point_macs@.len() - k,
    {
        let m: &String = &point_macs[k];
        let mut i: usize = macs.len();
        while i > 0 && macs[i - 1] != *m
            invariant
                i <= macs@.len(),
                forall|j: int| i <= j < macs@.len() ==> (#[trigger] macs@[j])@ != m@,
            decreases i,
        {
            i = i - 1;
        }
        let ghost mv = macs.deep_view();
        let c: &'static str = if i == 0 {
            proof {
                assert forall|j: int| 0 <= j < mv.len() implies mv[j] != m@ by {
                    assert(mv[j] == macs@[j]@);
                }
            }
            traj_color(0)
        } else {
            proof {
                let w: int = (i - 1) as int;
                assert(mv[w] == m@);
                let x = choose|x: int| 0 <= x < mv.len() && mv[x] == m@ && forall|j: int| x < j < mv.len() ==> mv[j] != m@;
                if x < w {
                    assert(mv[w] != m@);
                } else if x > w {
                    assert(mv[x] == macs@[x]@);
                }
            }
            traj_color(i - 1)
        };
        res.push(c);
        k = k + 1;
    }
    res
}

/// The GNW time the timestamp display unwraps: the sample's, when GNW timestamps are selected.
pub open spec fn displayed_tst(use_gnw: bool, gnw_tst: Option<u32>) -> Option<u32> {
    if use_gnw { gnw_tst } else { None }
}

/// Unix milliseconds of the current frame for the timestamp display: the unwrapped GNW time
/// of its sample when GNW timestamps are selected and the sample has one, else the playback
/// time.
pub fn frame_unix_ms(use_gnw: bool, gnw_tst: Option<u32>, capture_ms: i64, playback_ms: i64) -> (res: i64)
    requires
        use_gnw && gnw_tst is Some ==>
            i64::MIN + crate::calendar::ITS_EPOCH_MS + crate::calendar::TST_WRAP_MS <= capture_ms
                <= i64::MAX - crate::calendar::TST_WRAP_MS,
    ensures
        match displayed_tst(use_gnw, gnw_tst) {
            Some(tst) => crate::calendar::is_tst_unwrapping(tst as int, capture_ms as int, res as int),
            None => res == playback_ms,
        },
{
    if use_gnw {
        match gnw_tst {
            Some(tst) => crate::calendar::gnw_tst_to_unix_ms(tst, capture_ms),
            None => playback_ms,
        }
    } else {
        playback_ms
    }
}

/// Label above the car drawing: the MAC of the shown sample, else the selected vehicle; none
/// when both are empty.
pub fn car_label(state_mac: &String, selected: &String) -> (res: Option<String>)
    ensures
        state_mac@.len() > 0 ==> (res matches Some(l) && l@ == state_mac@),
        state_mac@.len() == 0 && selected@.len() > 0 ==> (res matches Some(l) && l@ == selected@),
        state_mac@.len() == 0 && selected@.len() == 0 ==> res is None,
{
    if !state_mac.as_str().is_empty() {
        Some(state_mac.clone())
    } else if !selected.as_str().is_empty() {
        Some(selected.clone())
    } else {
        None
    }
}

/// CSS class of a live-view control button.
pub fn ctrl_btn_class(active: bool) -> (res: &'static str)
    ensures
        res@ == if active { "ctrl-btn active"@ } else { "ctrl-btn"@ },
{
    if active { "ctrl-btn active" } else { "ctrl-btn" }
}

/// Whether the light or flag that a demo control toggles is on.
pub open spec fn demo_active(s: PlaybackLightState, control: DemoControl) -> bool {
    match control {
        DemoControl::NoLight => s.no_light,
        DemoControl::DaytimeRunning => s.daytime_running,
        DemoControl::LowBeam => s.low_beam,
        DemoControl::HighBeam => s.high_beam,
        DemoControl::Left => s.left_blinker,
        DemoControl::Right => s.right_blinker,
        DemoControl::Hazard => s.hazard,
        DemoControl::Brake => s.brake,
        DemoControl::Accelerate => s.accelerating,
    }
}

/// CSS class of a demo button: `ctrl-btn`, a kind class for the blinkers, hazard, brake and
/// accelerator buttons, and `active` while what it toggles is on.
pub fn demo_button_class(control: DemoControl, s: &VehicleState) -> (res: &'static str)
    ensures
        res@ == (match control {
            DemoControl::Left | DemoControl::Right =>
                if demo_active(flags_of(*s), control) { "ctrl-btn blinker-btn active"@ } else { "ctrl-btn blinker-btn"@ },
            DemoControl::Hazard =>
                if demo_active(flags_of(*s), control) { "ctrl-btn hazard-btn active"@ } else { "ctrl-btn hazard-btn"@ },
            DemoControl::Brake =>
                if demo_active(flags_of(*s), control) { "ctrl-btn brake-btn active"@ } else { "ctrl-btn brake-btn"@ },
            DemoControl::Accelerate =>
                if demo_active(flags_of(*s), control) { "ctrl-btn accel-btn active"@ } else { "ctrl-btn accel-btn"@ },
            _ => if demo_active(flags_of(*s), control) { "ctrl-btn active"@ } else { "ctrl-btn"@ },
        }),
{
    match control {
        DemoControl::NoLight => ctrl_btn_class(s.no_light),
        DemoControl::DaytimeRunning => ctrl_btn_class(s.daytime_running),
        DemoControl::LowBeam => ctrl_btn_class(s.low_beam),
        DemoControl::HighBeam => ctrl_btn_class(s.high_beam),
        DemoControl::Left => if s.left_blinker { "ctrl-btn blinker-btn active" } else { "ctrl-btn blinker-btn" },
        DemoControl::Right => if s.right_blinker { "ctrl-btn blinker-btn active" } else { "ctrl-btn blinker-btn" },
        DemoControl::Hazard => if s.hazard { "ctrl-btn hazard-btn active" } else { "ctrl-btn hazard-btn" },
        DemoControl::Brake => if s.brake { "ctrl-btn brake-btn active" } else { "ctrl-btn brake-btn" },
        DemoControl::Accelerate => if s.accelerating { "ctrl-btn accel-btn active" } else { "ctrl-btn accel-btn" },
    }
}

/// Caption of a demo button.
pub fn demo_button_label(control: DemoControl) -> (res: &'static str)
    ensures
        res@ == (match control {
            DemoControl::NoLight => "No Light"@,
            DemoControl::DaytimeRunning => "DRL"@,
            DemoControl::LowBeam => "Low Beam"@,
            DemoControl::HighBeam => "High Beam"@,
            DemoControl::Left => "Left"@,
            DemoControl::Right => "Right"@,
            DemoControl::Hazard => "Hazard"@,
            DemoControl::Brake => "Brake"@,
            DemoControl::Accelerate => "Accel"@,
        }),
{
    match control {
        DemoControl::NoLight => "No Light",
        DemoControl::DaytimeRunning => "DRL",
        DemoControl::LowBeam => "Low Beam",
        DemoControl::HighBeam => "High Beam",
        DemoControl::Left => "Left",
        DemoControl::Right => "Right",
        DemoControl::Hazard => "Hazard",
        DemoControl::Brake => "Brake",
        DemoControl::Accelerate => "Accel",
    }
}

/// Label of the play button.
pub fn play_button_label(playing: bool) -> (res: &'static str)
    ensures
        res@ == if playing { "Pause"@ } else { "Play"@ },
{
    if playing { "Pause" } else { "Play" }
}

/// Names of the demo vehicles.
pub fn demo_vehicles() -> (res: Vec<&'static str>)
    ensures
        res@.len() == 4,
        res@[0]@ == "VV-001"@,
        res@[1]@ == "VV-002"@,
        res@[2]@ == "VV-003"@,
        res@[3]@ == "VV-004"@,
{
    let mut v: Vec<&'static str> = Vec::new();
    v.push("VV-001");
    v.push("VV-002");
    v.push("VV-003");
    v.push("VV-004");
    v
}

/// One option of the vehicle dropdown: value, label and whether it is selected.
#[derive(Clone, Debug)]
pub struct VehicleOption {
    pub value: String,
    pub label: String,
    pub selected: bool,
}

/// The options of the vehicle dropdown in Online and Offline mode: one per vehicle, valued by
/// its ID and selected when that ID is the current value.
pub fn vehicle_options(vehicles: &Vec<OfflineVehicle>, selected: &String) -> (res: Vec<VehicleOption>)
    ensures
        res@.len() == vehicles@.len(),
        forall|k: int| 0 <= k < res@.len() ==> {
            &&& (#[trigger] res@[k]).value@ == dec(vehicles@[k].id as nat)
            &&& res@[k].label@ == vehicles@[k].label@
            &&& res@[k].selected == (selected@ == dec(vehicles@[k].id as nat))
        },
{
    let mut res: Vec<VehicleOption> = Vec::new();
    let mut k: usize = 0;
    while k < vehicles.len()
        invariant
            k <= vehicles@.len(),
            res@.len() == k,
            forall|j: int| 0 <= j < k ==> {
                &&& (#[trigger] res@[j]).value@ == dec(vehicles@[j].id as nat)
                &&& res@[j].label@ == vehicles@[j].label@
                &&& res@[j].selected == (selected@ == dec(vehicles@[j].id as nat))
            },
        decreases vehicles@.len() - k,
    {
        let value: String = prefixed_number("", vehicles[k].id as u64);
        proof {
            reveal_strlit("");
            assert(""@ + dec(vehicles@[k as int].id as nat) =~= dec(vehicles@[k as int].id as nat));
        }
        let is_sel: bool = *selected == value;
        res.push(VehicleOption { value, label: vehicles[k].label.clone(), selected: is_sel });
        k = k + 1;
    }
    res
}

} // verus!
