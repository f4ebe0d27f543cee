use vstd::prelude::*;

verus! {

/// MQTT quality-of-service level of a publish or a subscription.
#[derive(Clone, Copy, Debug, PartialEq, Eq, Structural)]
pub enum QualityOfService {
    Level0,
    Level1,
    Level2,
}

impl QualityOfService {
    /// Numeric value of the level as it appears on the wire.
    pub open spec fn spec_value(self) -> u8 {
        match self {
            QualityOfService::Level0 => 0,
            QualityOfService::Level1 => 1,
            QualityOfService::Level2 => 2,
        }
    }

    pub fn value(self) -> (r: u8)
        ensures
            r == self.spec_value(),
    {
        match self {
            QualityOfService::Level0 => 0,
            QualityOfService::Level1 => 1,
            QualityOfService::Level2 => 2,
        }
    }

    /// Quality-of-service level for a numeric value, if it is one.
    pub fn from_value(v: u8) -> (r: Option<QualityOfService>)
        ensures
            r matches Some(q) ==> q.spec_value() == v,
            r is None <==> v > 2,
    {
        match v {
            0 => Some(QualityOfService::Level0),
            1 => Some(QualityOfService::Level1),
            2 => Some(QualityOfService::Level2),
            _ => None,
        }
    }
}

/// The lower of two quality-of-service levels.
pub open spec fn spec_min_qos(a: QualityOfService, b: QualityOfService) -> QualityOfService {
    if a.spec_value() <= b.spec_value() {
        a
    } else {
        b
    }
}

pub fn min_qos(a: QualityOfService, b: QualityOfService) -> (r: QualityOfService)
    ensures
        r == spec_min_qos(a, b),
{
    if a.value() <= b.value() {
        a
    } else {
        b
    }
}

} // verus!
