//! The orbit of the spacecraft: a TLE read by the sgp4 crate, kept as SGP4
//! propagation constants and the TLE epoch.

use vstd::prelude::*;
use vstd::string::StringSliceAdditionalSpecFns;

verus! {

/// The sgp4 crate's propagation constants.
#[verifier::external_type_specification]
#[verifier::external_body]
pub struct ExConstants(sgp4::Constants);

/// The sgp4 crate's error for a malformed TLE.
#[verifier::external_type_specification]
#[verifier::external_body]
pub struct ExTleError(sgp4::TleError);

/// The sgp4 crate's error for elements it cannot propagate.
#[verifier::external_type_specification]
#[verifier::external_body]
pub struct ExElementsError(sgp4::ElementsError);

/// The epoch of the elements that `sgp4::Elements::from_tle` reads from the
/// two element lines, as chrono splits it: whole seconds since the Unix epoch
/// and the nanoseconds past that second; `None` when sgp4 refuses the lines.
pub uninterp spec fn tle_epoch(line1: Seq<char>, line2: Seq<char>) -> Option<(int, int)>;

/// The TLE epoch of the two lines in nanoseconds since the Unix epoch.
pub open spec fn tle_epoch_nanos(line1: Seq<char>, line2: Seq<char>) -> Option<int> {
    match tle_epoch(line1, line2) {
        Some((secs, nanos)) => Some(secs * 1_000_000_000 + nanos),
        None => None,
    }
}

/// Both lines have the 69 bytes of a TLE line and one of them ends in a byte
/// below the digit `0` (byte 48), where its checksum digit stands.
pub open spec fn low_checksum_byte(bytes1: Seq<u8>, bytes2: Seq<u8>) -> bool {
    &&& bytes1.len() == 69
    &&& bytes2.len() == 69
    &&& (bytes1[68] < 48 || bytes2[68] < 48)
}

/// Calls `sgp4::Elements::from_tle` with no object name on the bytes of the
/// two lines; on success, splits the epoch (a naive UTC time) with chrono's
/// `and_utc`, `timestamp` and `timestamp_subsec_nanos`, and calls
/// `sgp4::Constants::from_elements` on the elements.
/// Claimed: sgp4 refuses lines that are not 69 bytes long, and whether it
/// accepts the lines, and the epoch it reads, depend on the two lines alone.
/// Which other lines sgp4 accepts is left unsaid. Nothing is claimed of the
/// constants or of whether `from_elements` accepts the elements: that rests on
/// `powf` and other floating-point functions whose precision std leaves open,
/// so it may differ between platforms and runs. sgp4 panics
/// on two 69-byte lines of which one ends in a byte below `0` (an underflowing
/// `u8` subtraction in its checksum test), so such lines are not admitted.
#[verifier::external_body]
fn read_tle(line1: &str, line2: &str) -> (r: Result<
    (i64, u32, Result<sgp4::Constants, sgp4::ElementsError>),
    sgp4::TleError,
>)
    requires
        !low_checksum_byte(line1.spec_bytes(), line2.spec_bytes()),
    ensures
        line1.spec_bytes().len() != 69 || line2.spec_bytes().len() != 69 ==> r is Err,
        match r {
            Ok((secs, nanos, _)) => tle_epoch(line1@, line2@) == Some((secs as int, nanos as int)),
            Err(_) => tle_epoch(line1@, line2@) is None,
        },
{
    let elements = sgp4::Elements::from_tle(None, line1.as_bytes(), line2.as_bytes())?;
    let epoch = elements.datetime.and_utc();
    let constants = sgp4::Constants::from_elements(&elements);
    Ok((epoch.timestamp(), epoch.timestamp_subsec_nanos(), constants))
}

/// Why a TLE could not be turned into a propagator.
#[derive(Debug, Clone, Copy, PartialEq, Eq, Structural)]
pub enum OrbitError {
    /// The element lines are malformed.
    Tle,
    /// The elements cannot be propagated.
    Elements,
}

/// SGP4 propagation constants for one TLE, with the TLE epoch.
pub struct Propagator {
    constants: sgp4::Constants,
    epoch_ns: i128,
}

impl Propagator {
    /// The TLE epoch, in nanoseconds since the Unix epoch.
    pub closed spec fn epoch_nanos(&self) -> int {
        self.epoch_ns as int
    }

    /// The propagation constants.
    pub closed spec fn propagation(&self) -> sgp4::Constants {
        self.constants
    }

    /// Builds the propagator from the two TLE lines. Malformed lines give
    /// `OrbitError::Tle`, among them every pair in which a line is not 69
    /// bytes long or a 69-byte line ends in a byte below the digit `0`;
    /// elements that SGP4 cannot propagate give `OrbitError::Elements`. Which
    /// well-formed lines SGP4 can propagate is the sgp4 crate's floating-point
    /// decision and is not stated.
    pub fn from_tle(line1: &str, line2: &str) -> (r: Result<Propagator, OrbitError>)
        ensures
            r is Ok ==> !low_checksum_byte(line1.spec_bytes(), line2.spec_bytes()) && tle_epoch(
                line1@,
                line2@,
            ) is Some,
            r matches Err(OrbitError::Elements) ==> !low_checksum_byte(
                line1.spec_bytes(),
                line2.spec_bytes(),
            ) && tle_epoch(line1@, line2@) is Some,
            r matches Err(OrbitError::Tle) <==> (low_checksum_byte(
                line1.spec_bytes(),
                line2.spec_bytes(),
            ) || tle_epoch(line1@, line2@) is None),
            line1.spec_bytes().len() != 69 || line2.spec_bytes().len() != 69 ==> r matches Err(
                OrbitError::Tle,
            ),
            r matches Ok(p) ==> tle_epoch_nanos(line1@, line2@) == Some(p.epoch_nanos()),
    {
        let bytes1 = line1.as_bytes();
        let bytes2 = line2.as_bytes();
        if bytes1.len() == 69 && bytes2.len() == 69 && (bytes1[68] < 48 || bytes2[68] < 48) {
            return Err(OrbitError::Tle);
        }
        match read_tle(line1, line2) {
            Err(_) => Err(OrbitError::Tle),
            Ok((secs, nanos, constants)) => Propagator::from_reading(secs, nanos, constants),
        }
    }

    /// The propagator from what sgp4 gave for well-formed TLE lines: the epoch,
    /// split as chrono splits it into whole seconds since the Unix epoch and
    /// the nanoseconds past that second, and the outcome of building the SGP4
    /// constants. It succeeds exactly when the constants were built, holding
    /// them and the epoch in nanoseconds; when sgp4 refused the elements it
    /// gives `OrbitError::Elements`.
    pub fn from_reading(
        secs: i64,
        nanos: u32,
        constants: Result<sgp4::Constants, sgp4::ElementsError>,
    ) -> (r: Result<Propagator, OrbitError>)
        ensures
            match constants {
                Ok(c) => r matches Ok(p) && p.propagation() == c && p.epoch_nanos() == secs
                    * 1_000_000_000 + nanos,
                Err(_) => r == Err::<Propagator, OrbitError>(OrbitError::Elements),
            },
    {
        match constants {
            Ok(constants) => {
                let epoch_ns = secs as i128 * 1_000_000_000 + nanos as i128;
                Ok(Propagator { constants, epoch_ns })
            },
            Err(_) => Err(OrbitError::Elements),
        }
    }

    /// The TLE epoch (UTC), in nanoseconds since the Unix epoch.
    pub fn epoch(&self) -> (ns: i128)
        ensures
            ns == self.epoch_nanos(),
    {
        self.epoch_ns
    }

    /// The SGP4 propagation constants.
    pub fn constants(&self) -> (c: &sgp4::Constants)
        ensures
            *c == self.propagation(),
    {
        &self.constants
    }
}

} // verus!
