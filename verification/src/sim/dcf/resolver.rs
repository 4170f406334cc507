use vstd::prelude::*;

verus! {

/// What the stations whose counters reached zero produce in one slot.
#[derive(Debug, PartialEq, Eq)]
pub enum TransmissionResolution {
    Idle,
    Success { station_id: usize },
    Collision { station_ids: Vec<usize> },
}

/// No contender: idle; one: success; two or more: collision between all of them.
pub fn resolve_transmission(contenders: Vec<usize>) -> (resolution: TransmissionResolution)
    ensures
        contenders@.len() == 0 ==> resolution is Idle,
        contenders@.len() == 1 ==> resolution == (TransmissionResolution::Success {
            station_id: contenders@[0],
        }),
        contenders@.len() >= 2 ==> (resolution matches TransmissionResolution::Collision {
            station_ids,
        } && station_ids@ == contenders@),
{
    if contenders.len() == 0 {
        TransmissionResolution::Idle
    } else if contenders.len() == 1 {
        TransmissionResolution::Success { station_id: contenders[0] }
    } else {
        TransmissionResolution::Collision { station_ids: contenders }
    }
}

} // verus!
