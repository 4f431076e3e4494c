//! Classification enums for orbital-intelligence observations: detected
//! behavior patterns, detection confidence, and conjunction risk tiers.
//! The analysis pipelines that produce these classifications live with
//! external collaborators; this module holds the value types and their
//! parsing.
use vstd::prelude::*;

verus! {

/// Kinds of detected pattern or anomaly.
#[derive(Debug, Clone, Copy, PartialEq, Eq, Structural, Hash)]
pub enum PatternType {
    /// Orbital maneuver detected.
    Maneuver,
    /// Altitude increase.
    OrbitRaise,
    /// Altitude decrease.
    OrbitLower,
    /// Inclination change.
    PlaneChange,
    /// Deorbit maneuver.
    Deorbit,
    /// Station-keeping burn.
    StationKeeping,
    /// Close approach to another object.
    ProximityOps,
    /// Docking or berthing approach.
    Rendezvous,
    /// Collision avoidance maneuver.
    DebrisAvoidance,
    /// Unexpected behavior.
    Anomaly,
    /// Loss of attitude control.
    Tumbling,
    /// Breakup event.
    Fragmentation,
    /// Satellite deployment.
    Deployment,
    /// Atmospheric reentry.
    Reentry,
}

/// Confidence of a pattern detection, ordered from least to most certain.
#[derive(Debug, Clone, Copy, PartialEq, Eq, PartialOrd, Ord, Structural, Hash)]
pub enum ConfidenceLevel {
    /// Low confidence; needs more data.
    Uncertain,
    /// Moderate confidence.
    Possible,
    /// Good confidence.
    Likely,
    /// High confidence from multiple data sources.
    Confirmed,
}

/// Risk tier of a conjunction, ordered from most to least urgent.
#[derive(Debug, Clone, Copy, PartialEq, Eq, Structural, Hash)]
pub enum RiskLevel {
    /// Immediate action required.
    Critical,
    /// Close monitoring needed.
    High,
    /// Standard monitoring.
    Medium,
    /// Routine tracking.
    Low,
    /// No action needed.
    Negligible,
}

/// The character code after ASCII lowercasing.
pub open spec fn lower_code(c: char) -> int {
    if 'A' <= c && c <= 'Z' {
        c as int + 32
    } else {
        c as int
    }
}

/// ASCII-case-insensitive string equality.
pub open spec fn eq_ignore_case(a: Seq<char>, b: Seq<char>) -> bool {
    a.len() == b.len() && forall|i: int| 0 <= i < a.len() ==> lower_code(#[trigger] a[i])
        == lower_code(b[i])
}

fn lower_exec(c: char) -> (r: u32)
    ensures
        r as int == lower_code(c),
{
    if 'A' <= c && c <= 'Z' {
        (c as u32) + 32
    } else {
        c as u32
    }
}

fn eqi(s: &str, lit: &str) -> (r: bool)
    ensures
        r == eq_ignore_case(s@, lit@),
{
    let n = s.unicode_len();
    if n != lit.unicode_len() {
        return false;
    }
    let mut i: usize = 0;
    while i < n
        invariant
            n == s@.len() == lit@.len(),
            i <= n,
            forall|q: int| 0 <= q < i ==> lower_code(#[trigger] s@[q]) == lower_code(lit@[q]),
        decreases n - i,
    {
        let a = s.get_char(i);
        let b = lit.get_char(i);
        if lower_exec(a) != lower_exec(b) {
            return false;
        }
        i = i + 1;
    }
    true
}

/// Two names that differ (after lowercasing) at some position cannot both
/// equal the same string case-insensitively.
proof fn lemma_not_both(s: Seq<char>, a: Seq<char>, b: Seq<char>, i: int)
    requires
        0 <= i < a.len(),
        i < b.len(),
        lower_code(a[i]) != lower_code(b[i]),
    ensures
        !(eq_ignore_case(s, a) && eq_ignore_case(s, b)),
{
    if eq_ignore_case(s, a) && eq_ignore_case(s, b) {
        assert(lower_code(s[i]) == lower_code(a[i]));
        assert(lower_code(s[i]) == lower_code(b[i]));
    }
}

impl PatternType {
    /// Parse a pattern type from its snake-case name, ASCII
    /// case-insensitively; rejects anything else.
    pub fn parse(s: &str) -> (r: Result<PatternType, ()>)
        ensures
            r == Result::<PatternType, ()>::Ok(PatternType::Maneuver) <==> eq_ignore_case(
                s@,
                "maneuver"@,
            ),
            r == Result::<PatternType, ()>::Ok(PatternType::OrbitRaise) <==> eq_ignore_case(
                s@,
                "orbit_raise"@,
            ),
            r == Result::<PatternType, ()>::Ok(PatternType::OrbitLower) <==> eq_ignore_case(
                s@,
                "orbit_lower"@,
            ),
            r == Result::<PatternType, ()>::Ok(PatternType::PlaneChange) <==> eq_ignore_case(
                s@,
                "plane_change"@,
            ),
            r == Result::<PatternType, ()>::Ok(PatternType::Deorbit) <==> eq_ignore_case(
                s@,
                "deorbit"@,
            ),
            r == Result::<PatternType, ()>::Ok(PatternType::StationKeeping) <==> eq_ignore_case(
                s@,
                "station_keeping"@,
            ),
            r == Result::<PatternType, ()>::Ok(PatternType::ProximityOps) <==> eq_ignore_case(
                s@,
                "proximity_ops"@,
            ),
            r == Result::<PatternType, ()>::Ok(PatternType::Rendezvous) <==> eq_ignore_case(
                s@,
                "rendezvous"@,
            ),
            r == Result::<PatternType, ()>::Ok(PatternType::DebrisAvoidance) <==> eq_ignore_case(
                s@,
                "debris_avoidance"@,
            ),
            r == Result::<PatternType, ()>::Ok(PatternType::Anomaly) <==> eq_ignore_case(
                s@,
                "anomaly"@,
            ),
            r == Result::<PatternType, ()>::Ok(PatternType::Tumbling) <==> eq_ignore_case(
                s@,
                "tumbling"@,
            ),
            r == Result::<PatternType, ()>::Ok(PatternType::Fragmentation) <==> eq_ignore_case(
                s@,
                "fragmentation"@,
            ),
            r == Result::<PatternType, ()>::Ok(PatternType::Deployment) <==> eq_ignore_case(
                s@,
                "deployment"@,
            ),
            r == Result::<PatternType, ()>::Ok(PatternType::Reentry) <==> eq_ignore_case(
                s@,
                "reentry"@,
            ),
    {
        proof {
            reveal_strlit("maneuver");
            reveal_strlit("orbit_raise");
            reveal_strlit("orbit_lower");
            reveal_strlit("plane_change");
            reveal_strlit("deorbit");
            reveal_strlit("station_keeping");
            reveal_strlit("proximity_ops");
            reveal_strlit("rendezvous");
            reveal_strlit("debris_avoidance");
            reveal_strlit("anomaly");
            reveal_strlit("tumbling");
            reveal_strlit("fragmentation");
            reveal_strlit("deployment");
            reveal_strlit("reentry");
            lemma_not_both(s@, "maneuver"@, "tumbling"@, 0);
            lemma_not_both(s@, "orbit_raise"@, "orbit_lower"@, 6);
            lemma_not_both(s@, "deorbit"@, "anomaly"@, 0);
            lemma_not_both(s@, "deorbit"@, "reentry"@, 0);
            lemma_not_both(s@, "anomaly"@, "reentry"@, 0);
            lemma_not_both(s@, "proximity_ops"@, "fragmentation"@, 0);
            lemma_not_both(s@, "rendezvous"@, "deployment"@, 0);
        }
        if eqi(s, "maneuver") {
            Result::Ok(PatternType::Maneuver)
        } else if eqi(s, "orbit_raise") {
            Result::Ok(PatternType::OrbitRaise)
        } else if eqi(s, "orbit_lower") {
            Result::Ok(PatternType::OrbitLower)
        } else if eqi(s, "plane_change") {
            Result::Ok(PatternType::PlaneChange)
        } else if eqi(s, "deorbit") {
            Result::Ok(PatternType::Deorbit)
        } else if eqi(s, "station_keeping") {
            Result::Ok(PatternType::StationKeeping)
        } else if eqi(s, "proximity_ops") {
            Result::Ok(PatternType::ProximityOps)
        } else if eqi(s, "rendezvous") {
            Result::Ok(PatternType::Rendezvous)
        } else if eqi(s, "debris_avoidance") {
            Result::Ok(PatternType::DebrisAvoidance)
        } else if eqi(s, "anomaly") {
            Result::Ok(PatternType::Anomaly)
        } else if eqi(s, "tumbling") {
            Result::Ok(PatternType::Tumbling)
        } else if eqi(s, "fragmentation") {
            Result::Ok(PatternType::Fragmentation)
        } else if eqi(s, "deployment") {
            Result::Ok(PatternType::Deployment)
        } else if eqi(s, "reentry") {
            Result::Ok(PatternType::Reentry)
        } else {
            Result::Err(())
        }
    }

    /// Whether this pattern is a deliberate maneuver.
    pub fn is_maneuver(&self) -> (r: bool)
        ensures
            r == (self is Maneuver || self is OrbitRaise || self is OrbitLower
                || self is PlaneChange || self is Deorbit || self is StationKeeping
                || self is DebrisAvoidance),
    {
        matches!(
            self,
            PatternType::Maneuver
                | PatternType::OrbitRaise
                | PatternType::OrbitLower
                | PatternType::PlaneChange
                | PatternType::Deorbit
                | PatternType::StationKeeping
                | PatternType::DebrisAvoidance
        )
    }

    /// Whether this pattern is an anomaly.
    pub fn is_anomaly(&self) -> (r: bool)
        ensures
            r == (self is Anomaly || self is Tumbling || self is Fragmentation),
    {
        matches!(self, PatternType::Anomaly | PatternType::Tumbling | PatternType::Fragmentation)
    }
}

impl core::str::FromStr for PatternType {
    type Err = ();

    fn from_str(s: &str) -> Result<Self, ()> {
        PatternType::parse(s)
    }
}

impl RiskLevel {
    /// Parse a risk level from its name, ASCII case-insensitively;
    /// rejects anything else.
    pub fn parse(s: &str) -> (r: Result<RiskLevel, ()>)
        ensures
            r == Result::<RiskLevel, ()>::Ok(RiskLevel::Critical) <==> eq_ignore_case(
                s@,
                "critical"@,
            ),
            r == Result::<RiskLevel, ()>::Ok(RiskLevel::High) <==> eq_ignore_case(s@, "high"@),
            r == Result::<RiskLevel, ()>::Ok(RiskLevel::Medium) <==> eq_ignore_case(
                s@,
                "medium"@,
            ),
            r == Result::<RiskLevel, ()>::Ok(RiskLevel::Low) <==> eq_ignore_case(s@, "low"@),
            r == Result::<RiskLevel, ()>::Ok(RiskLevel::Negligible) <==> eq_ignore_case(
                s@,
                "negligible"@,
            ),
    {
        proof {
            reveal_strlit("critical");
            reveal_strlit("high");
            reveal_strlit("medium");
            reveal_strlit("low");
            reveal_strlit("negligible");
        }
        if eqi(s, "critical") {
            Result::Ok(RiskLevel::Critical)
        } else if eqi(s, "high") {
            Result::Ok(RiskLevel::High)
        } else if eqi(s, "medium") {
            Result::Ok(RiskLevel::Medium)
        } else if eqi(s, "low") {
            Result::Ok(RiskLevel::Low)
        } else if eqi(s, "negligible") {
            Result::Ok(RiskLevel::Negligible)
        } else {
            Result::Err(())
        }
    }
}

impl core::str::FromStr for RiskLevel {
    type Err = ();

    fn from_str(s: &str) -> Result<Self, ()> {
        RiskLevel::parse(s)
    }
}

impl ConfidenceLevel {
    /// Parse a confidence level from its name, ASCII case-insensitively;
    /// rejects anything else.
    pub fn parse(s: &str) -> (r: Result<ConfidenceLevel, ()>)
        ensures
            r == Result::<ConfidenceLevel, ()>::Ok(ConfidenceLevel::Confirmed) <==> eq_ignore_case(
                s@,
                "confirmed"@,
            ),
            r == Result::<ConfidenceLevel, ()>::Ok(ConfidenceLevel::Likely) <==> eq_ignore_case(
                s@,
                "likely"@,
            ),
            r == Result::<ConfidenceLevel, ()>::Ok(ConfidenceLevel::Possible) <==> eq_ignore_case(
                s@,
                "possible"@,
            ),
            r == Result::<ConfidenceLevel, ()>::Ok(ConfidenceLevel::Uncertain) <==> eq_ignore_case(
                s@,
                "uncertain"@,
            ),
    {
        proof {
            reveal_strlit("confirmed");
            reveal_strlit("likely");
            reveal_strlit("possible");
            reveal_strlit("uncertain");
            lemma_not_both(s@, "confirmed"@, "uncertain"@, 0);
        }
        if eqi(s, "confirmed") {
            Result::Ok(ConfidenceLevel::Confirmed)
        } else if eqi(s, "likely") {
            Result::Ok(ConfidenceLevel::Likely)
        } else if eqi(s, "possible") {
            Result::Ok(ConfidenceLevel::Possible)
        } else if eqi(s, "uncertain") {
            Result::Ok(ConfidenceLevel::Uncertain)
        } else {
            Result::Err(())
        }
    }
}

impl core::str::FromStr for ConfidenceLevel {
    type Err = ();

    fn from_str(s: &str) -> Result<Self, ()> {
        ConfidenceLevel::parse(s)
    }
}

} // verus!
