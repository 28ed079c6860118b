//! IP-based geolocation.
//!
//! After Wi-Fi connects, if the user has not set a manual latitude/longitude override we ask a
//! public IP-geolocation API where we are.

use vstd::prelude::*;

use crate::config::opt_text;
use crate::text::{between, same_text};

verus! {

/// DNS is not necessarily usable the moment the station gets its lease, so the lookup is retried
/// rather than falling back to the wrong side of the country.
pub const ATTEMPTS: usize = 4;

/// How long to wait before another lookup.
pub const RETRY_DELAY_MS: u32 = 3000;

/// The API's answer. `C` is the type of a coordinate.
pub struct IpApiResponse<C> {
    pub status: String,
    pub lat: Option<C>,
    pub lon: Option<C>,
    pub city: Option<String>,
    pub region_name: Option<String>,
    pub message: Option<String>,
}

/// A resolved geographic location.
#[derive(Debug, Clone)]
pub struct Location<C> {
    pub latitude: C,
    pub longitude: C,
    /// Human readable label (e.g. "Austin, Texas"), when available.
    pub label: Option<String>,
}

/// Why an answer gives no location.
#[derive(Debug, PartialEq, Eq)]
pub enum LocationError {
    /// The API reports this problem.
    Api(String),
    MissingLatitude,
    MissingLongitude,
}

/// The label of a place: its city and region, as far as they are known.
pub open spec fn place_label(
    city: Option<Seq<char>>,
    region: Option<Seq<char>>,
) -> Option<Seq<char>> {
    match (city, region) {
        (Some(c), Some(r)) => Some(c + ", "@ + r),
        (Some(c), None) => Some(c),
        (None, Some(r)) => Some(r),
        (None, None) => None,
    }
}

/// A place is called by its city and its region with a comma between them, or by the one that is
/// known; it has no name only where neither is.
pub proof fn law_places_are_called_by_city_and_region(
    city: Option<Seq<char>>,
    region: Option<Seq<char>>,
)
    ensures
        place_label(city, region) is None <==> city is None && region is None,
        city is Some && region is Some ==> place_label(city, region) == Some(
            city->0 + seq![',', ' '] + region->0,
        ),
        region is None ==> place_label(city, region) == city,
        city is None ==> place_label(city, region) == region,
{
    reveal_strlit(", ");
    assert(", "@ =~= seq![',', ' ']);
}

/// What is made of the API's answer.
pub open spec fn looked_up<C>(
    resp: IpApiResponse<C>,
    r: Result<Location<C>, LocationError>,
) -> bool {
    if resp.status@ != "success"@ {
        r matches Err(LocationError::Api(m)) && m@ == match opt_text(resp.message) {
            Some(t) => t,
            None => "unknown"@,
        }
    } else if resp.lat is None {
        r matches Err(LocationError::MissingLatitude)
    } else if resp.lon is None {
        r matches Err(LocationError::MissingLongitude)
    } else {
        r matches Ok(l) && Some(l.latitude) == resp.lat && Some(l.longitude) == resp.lon
            && opt_text(l.label) == place_label(
            opt_text(resp.city),
            opt_text(resp.region_name),
        )
    }
}

/// A location is found if and only if the API reports success and gives both coordinates: then
/// these are its latitude and its longitude, and it is called by its city and region. Otherwise the
/// problem is the one that the API reports, or the coordinate that is missing.
pub proof fn law_location_takes_success_and_coordinates<C>(
    resp: IpApiResponse<C>,
    r: Result<Location<C>, LocationError>,
)
    requires
        looked_up(resp, r),
    ensures
        r is Ok <==> resp.status@ == "success"@ && resp.lat is Some && resp.lon is Some,
        r matches Ok(l) ==> {
            &&& l.latitude == resp.lat->0
            &&& l.longitude == resp.lon->0
            &&& l.label is None <==> resp.city is None && resp.region_name is None
            &&& resp.city is Some && resp.region_name is Some ==> l.label->0@ == resp.city->0@ + seq![
                ',',
                ' ',
            ] + resp.region_name->0@
            &&& resp.city is Some && resp.region_name is None ==> l.label->0@ == resp.city->0@
            &&& resp.city is None && resp.region_name is Some ==> l.label->0@
                == resp.region_name->0@
        },
        r matches Err(LocationError::Api(m)) ==> resp.status@ != "success"@ && (resp.message is Some
            ==> m@ == resp.message->0@) && (resp.message is None ==> m@ == "unknown"@),
        r matches Err(LocationError::MissingLatitude) ==> resp.lat is None,
        r matches Err(LocationError::MissingLongitude) ==> resp.lat is Some && resp.lon is None,
        resp.status@ != "success"@ ==> (r matches Err(LocationError::Api(_))),
{
    law_places_are_called_by_city_and_region(opt_text(resp.city), opt_text(resp.region_name));
}

/// What the API's answer says of the location.
pub fn lookup<C>(resp: IpApiResponse<C>) -> (r: Result<Location<C>, LocationError>)
    ensures
        looked_up(resp, r),
{
    if !same_text(resp.status.as_str(), "success") {
        let message: String = match resp.message {
            Some(m) => m,
            None => "unknown".to_owned(),
        };
        return Err(LocationError::Api(message));
    }
    let latitude = match resp.lat {
        Some(lat) => lat,
        None => {
            return Err(LocationError::MissingLatitude);
        },
    };
    let longitude = match resp.lon {
        Some(lon) => lon,
        None => {
            return Err(LocationError::MissingLongitude);
        },
    };
    let label: Option<String> = match (resp.city, resp.region_name) {
        (Some(c), Some(r)) => Some(between(c.as_str(), ", ", r.as_str())),
        (Some(c), None) => Some(c),
        (None, Some(r)) => Some(r),
        (None, None) => None,
    };
    Ok(Location { latitude, longitude, label })
}

/// What to do after a lookup.
pub enum Resolution<C, E> {
    /// The location is known.
    Found(Location<C>),
    /// Wait and make attempt number `attempt`.
    Again { attempt: usize, delay_ms: u32 },
    /// No attempt is left; this is what the last one failed with.
    Failed(E),
}

/// What to do after attempt number `attempt`.
pub open spec fn resolution<C, E>(
    attempt: usize,
    outcome: Result<Location<C>, E>,
) -> Resolution<C, E> {
    match outcome {
        Ok(l) => Resolution::Found(l),
        Err(e) => if attempt < ATTEMPTS {
            Resolution::Again { attempt: (attempt + 1) as usize, delay_ms: RETRY_DELAY_MS }
        } else {
            Resolution::Failed(e)
        },
    }
}

/// Up to the fourth attempt, a failure is followed by the next one, three seconds later; a location
/// ends the search at once.
pub proof fn law_four_attempts<C, E>(attempt: usize, outcome: Result<Location<C>, E>)
    requires
        1 <= attempt <= ATTEMPTS,
    ensures
        outcome matches Ok(l) ==> resolution(attempt, outcome) == Resolution::<C, E>::Found(l),
        outcome is Err && attempt < 4 ==> resolution(attempt, outcome) == (Resolution::<
            C,
            E,
        >::Again { attempt: (attempt + 1) as usize, delay_ms: 3000 }),
        outcome matches Err(e) ==> attempt >= 4 ==> resolution(attempt, outcome) == Resolution::<
            C,
            E,
        >::Failed(e),
        attempt <= 4,
{
}

/// Decide what to do after attempt number `attempt` to resolve the location, retrying while the
/// resolver settles after the connection comes up.
pub fn resolve_from_ip<C, E>(attempt: usize, outcome: Result<Location<C>, E>) -> (r: Resolution<
    C,
    E,
>)
    requires
        1 <= attempt <= ATTEMPTS,
    ensures
        r == resolution(attempt, outcome),
{
    match outcome {
        Ok(l) => Resolution::Found(l),
        Err(e) => if attempt < ATTEMPTS {
            Resolution::Again { attempt: attempt + 1, delay_ms: RETRY_DELAY_MS }
        } else {
            Resolution::Failed(e)
        },
    }
}

/// What comes of lookups whose outcomes would be these, made until one succeeds or none is left.
pub open spec fn resolved<C, E>(
    attempt: int,
    outcomes: Seq<Result<Location<C>, E>>,
) -> Result<Location<C>, E>
    decreases ATTEMPTS - attempt,
{
    match resolution(attempt as usize, outcomes[attempt - 1]) {
        Resolution::Found(l) => Ok(l),
        Resolution::Again { .. } => if attempt < ATTEMPTS {
            resolved(attempt + 1, outcomes)
        } else {
            outcomes[attempt - 1]
        },
        Resolution::Failed(e) => Err(e),
    }
}

/// The first lookup that succeeds decides; if none of them does, the last one's failure is the
/// answer.
pub proof fn law_first_success_decides<C, E>(outcomes: Seq<Result<Location<C>, E>>, k: int)
    requires
        outcomes.len() == ATTEMPTS,
        0 <= k <= ATTEMPTS,
        forall|i: int| 0 <= i < k ==> (#[trigger] outcomes[i]) is Err,
        k < ATTEMPTS ==> outcomes[k] is Ok,
    ensures
        resolved(1, outcomes) == if k < ATTEMPTS {
            outcomes[k]
        } else {
            outcomes[ATTEMPTS - 1]
        },
{
    reveal_with_fuel(resolved, 5);
    assert(k > 0 ==> outcomes[0] is Err);
    assert(k > 1 ==> outcomes[1] is Err);
    assert(k > 2 ==> outcomes[2] is Err);
    assert(k > 3 ==> outcomes[3] is Err);
}

} // verus!
