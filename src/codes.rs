//! Single-letter codes of telemetry fields.
use vstd::prelude::*;

verus! {

/// MODE: flight or simulation.
#[derive(Debug, Clone, Copy, PartialEq, Eq, Structural)]
pub enum Mode {
    Flight,
    Simulation,
}

/// HS_DEPLOYED: whether the probe with its heat shield is deployed.
#[derive(Debug, Clone, Copy, PartialEq, Eq, Structural)]
pub enum HsDeployed {
    Deployed,
    NotDeployed,
}

/// PC_DEPLOYED: whether the probe parachute is deployed.
#[derive(Debug, Clone, Copy, PartialEq, Eq, Structural)]
pub enum PcDeployed {
    Deployed,
    NotDeployed,
}

/// MAST_RAISED: whether the flag mast is raised after landing.
#[derive(Debug, Clone, Copy, PartialEq, Eq, Structural)]
pub enum MastRaised {
    Raised,
    NotRaised,
}

/// The family of a telemetry record: container or tethered payload.
#[derive(Debug, Clone, Copy, PartialEq, Eq, Structural)]
pub enum PacketType {
    Container,
    TetheredPayload,
}

/// Whether the tethered payload has been released.
#[derive(Debug, Clone, Copy, PartialEq, Eq, Structural)]
pub enum TpReleased {
    NotReleased,
    Released,
}

impl Mode {
    pub open spec fn code_spec(self) -> u8 {
        match self {
            Mode::Flight => 0x46,
            Mode::Simulation => 0x53,
        }
    }

    pub open spec fn from_code_spec(b: u8) -> Option<Mode> {
        if b == 0x46 {
            Some(Mode::Flight)
        } else if b == 0x53 {
            Some(Mode::Simulation)
        } else {
            None
        }
    }

    /// `F` or `S`.
    pub fn code(&self) -> (r: u8)
        ensures
            r == self.code_spec(),
            Self::from_code_spec(r) == Some(*self),
    {
        match self {
            Mode::Flight => 0x46,
            Mode::Simulation => 0x53,
        }
    }

    pub fn from_code(b: u8) -> (r: Option<Mode>)
        ensures
            r == Self::from_code_spec(b),
            r matches Some(m) ==> m.code_spec() == b,
    {
        if b == 0x46 {
            Some(Mode::Flight)
        } else if b == 0x53 {
            Some(Mode::Simulation)
        } else {
            None
        }
    }
}

impl HsDeployed {
    pub open spec fn code_spec(self) -> u8 {
        match self {
            HsDeployed::Deployed => 0x50,
            HsDeployed::NotDeployed => 0x4E,
        }
    }

    pub open spec fn from_code_spec(b: u8) -> Option<HsDeployed> {
        if b == 0x50 {
            Some(HsDeployed::Deployed)
        } else if b == 0x4E {
            Some(HsDeployed::NotDeployed)
        } else {
            None
        }
    }

    /// `P` or `N`.
    pub fn code(&self) -> (r: u8)
        ensures
            r == self.code_spec(),
            Self::from_code_spec(r) == Some(*self),
    {
        match self {
            HsDeployed::Deployed => 0x50,
            HsDeployed::NotDeployed => 0x4E,
        }
    }

    pub fn from_code(b: u8) -> (r: Option<HsDeployed>)
        ensures
            r == Self::from_code_spec(b),
            r matches Some(m) ==> m.code_spec() == b,
    {
        if b == 0x50 {
            Some(HsDeployed::Deployed)
        } else if b == 0x4E {
            Some(HsDeployed::NotDeployed)
        } else {
            None
        }
    }
}

impl PcDeployed {
    pub open spec fn code_spec(self) -> u8 {
        match self {
            PcDeployed::Deployed => 0x43,
            PcDeployed::NotDeployed => 0x4E,
        }
    }

    pub open spec fn from_code_spec(b: u8) -> Option<PcDeployed> {
        if b == 0x43 {
            Some(PcDeployed::Deployed)
        } else if b == 0x4E {
            Some(PcDeployed::NotDeployed)
        } else {
            None
        }
    }

    /// `C` or `N`.
    pub fn code(&self) -> (r: u8)
        ensures
            r == self.code_spec(),
            Self::from_code_spec(r) == Some(*self),
    {
        match self {
            PcDeployed::Deployed => 0x43,
            PcDeployed::NotDeployed => 0x4E,
        }
    }

    pub fn from_code(b: u8) -> (r: Option<PcDeployed>)
        ensures
            r == Self::from_code_spec(b),
            r matches Some(m) ==> m.code_spec() == b,
    {
        if b == 0x43 {
            Some(PcDeployed::Deployed)
        } else if b == 0x4E {
            Some(PcDeployed::NotDeployed)
        } else {
            None
        }
    }
}

impl MastRaised {
    pub open spec fn code_spec(self) -> u8 {
        match self {
            MastRaised::Raised => 0x4D,
            MastRaised::NotRaised => 0x4E,
        }
    }

    pub open spec fn from_code_spec(b: u8) -> Option<MastRaised> {
        if b == 0x4D {
            Some(MastRaised::Raised)
        } else if b == 0x4E {
            Some(MastRaised::NotRaised)
        } else {
            None
        }
    }

    /// `M` or `N`.
    pub fn code(&self) -> (r: u8)
        ensures
            r == self.code_spec(),
            Self::from_code_spec(r) == Some(*self),
    {
        match self {
            MastRaised::Raised => 0x4D,
            MastRaised::NotRaised => 0x4E,
        }
    }

    pub fn from_code(b: u8) -> (r: Option<MastRaised>)
        ensures
            r == Self::from_code_spec(b),
            r matches Some(m) ==> m.code_spec() == b,
    {
        if b == 0x4D {
            Some(MastRaised::Raised)
        } else if b == 0x4E {
            Some(MastRaised::NotRaised)
        } else {
            None
        }
    }
}

impl PacketType {
    pub open spec fn code_spec(self) -> u8 {
        match self {
            PacketType::Container => 0x43,
            PacketType::TetheredPayload => 0x54,
        }
    }

    pub open spec fn from_code_spec(b: u8) -> Option<PacketType> {
        if b == 0x43 {
            Some(PacketType::Container)
        } else if b == 0x54 {
            Some(PacketType::TetheredPayload)
        } else {
            None
        }
    }

    /// `C` or `T`.
    pub fn code(&self) -> (r: u8)
        ensures
            r == self.code_spec(),
            Self::from_code_spec(r) == Some(*self),
    {
        match self {
            PacketType::Container => 0x43,
            PacketType::TetheredPayload => 0x54,
        }
    }

    pub fn from_code(b: u8) -> (r: Option<PacketType>)
        ensures
            r == Self::from_code_spec(b),
            r matches Some(m) ==> m.code_spec() == b,
    {
        if b == 0x43 {
            Some(PacketType::Container)
        } else if b == 0x54 {
            Some(PacketType::TetheredPayload)
        } else {
            None
        }
    }
}

impl TpReleased {
    pub open spec fn code_spec(self) -> u8 {
        match self {
            TpReleased::NotReleased => 0x4E,
            TpReleased::Released => 0x52,
        }
    }

    pub open spec fn from_code_spec(b: u8) -> Option<TpReleased> {
        if b == 0x4E {
            Some(TpReleased::NotReleased)
        } else if b == 0x52 {
            Some(TpReleased::Released)
        } else {
            None
        }
    }

    /// `N` or `R`.
    pub fn code(&self) -> (r: u8)
        ensures
            r == self.code_spec(),
            Self::from_code_spec(r) == Some(*self),
    {
        match self {
            TpReleased::NotReleased => 0x4E,
            TpReleased::Released => 0x52,
        }
    }

    pub fn from_code(b: u8) -> (r: Option<TpReleased>)
        ensures
            r == Self::from_code_spec(b),
            r matches Some(m) ==> m.code_spec() == b,
    {
        if b == 0x4E {
            Some(TpReleased::NotReleased)
        } else if b == 0x52 {
            Some(TpReleased::Released)
        } else {
            None
        }
    }
}

/// The state of the container's flight software.
#[derive(Debug, Clone, Copy, PartialEq, Eq, Structural)]
pub enum SoftwareState {
    LaunchWait,
    Calibrating,
    LaunchWaitCal,
    Ascent,
    DescentPar1,
    DescentPar2,
    DescentTpRel,
    Landed,
}

impl SoftwareState {
    /// The text of each state.
    pub open spec fn text(self) -> Seq<char> {
        match self {
            SoftwareState::LaunchWait => "LW"@,
            SoftwareState::Calibrating => "CAL"@,
            SoftwareState::LaunchWaitCal => "LWC"@,
            SoftwareState::Ascent => "ASC"@,
            SoftwareState::DescentPar1 => "DP1"@,
            SoftwareState::DescentPar2 => "DP2"@,
            SoftwareState::DescentTpRel => "DTP"@,
            SoftwareState::Landed => "LAN"@,
        }
    }

    /// The text of this state.
    pub fn as_str(&self) -> (r: &'static str)
        ensures
            r@ == self.text(),
    {
        match self {
            SoftwareState::LaunchWait => "LW",
            SoftwareState::Calibrating => "CAL",
            SoftwareState::LaunchWaitCal => "LWC",
            SoftwareState::Ascent => "ASC",
            SoftwareState::DescentPar1 => "DP1",
            SoftwareState::DescentPar2 => "DP2",
            SoftwareState::DescentTpRel => "DTP",
            SoftwareState::Landed => "LAN",
        }
    }
}

/// The state of the tethered payload's software.
#[derive(Debug, Clone, Copy, PartialEq, Eq, Structural)]
pub enum TpSoftwareState {
    Released,
}

impl TpSoftwareState {
    /// The text of each state.
    pub open spec fn text(self) -> Seq<char> {
        match self {
            TpSoftwareState::Released => "RELEASED"@,
        }
    }

    /// The text of this state.
    pub fn as_str(&self) -> (r: &'static str)
        ensures
            r@ == self.text(),
    {
        match self {
            TpSoftwareState::Released => "RELEASED",
        }
    }
}

} // verus!
