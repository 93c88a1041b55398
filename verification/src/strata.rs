use vstd::prelude::*;

verus! {

/// A treatment arm. The study is two-armed, so the label domain is closed.
#[derive(Clone, Copy, PartialEq, Eq, Structural, Debug)]
pub enum Group {
    A,
    B,
}

/// The gender covariate of a subject; the domain is closed.
#[derive(Clone, Copy, PartialEq, Eq, Structural, Debug)]
pub enum Gender {
    Male,
    Female,
}

/// The age band covariate: below the fixed threshold of 55, or at least 55.
#[derive(Clone, Copy, PartialEq, Eq, Structural, Debug)]
pub enum AgeBand {
    Under55,
    AtLeast55,
}

/// A stratification key: one cell of the gender x age-band grid.
/// There are exactly four such cells.
#[derive(Clone, Copy, PartialEq, Eq, Structural, Debug)]
pub struct StrataKey {
    pub gender: Gender,
    pub age_band: AgeBand,
}

/// The faults an allocation request can report.
#[derive(Clone, Copy, PartialEq, Eq, Structural, Debug)]
pub enum AllocError {
    /// The request itself is malformed (a negative age).
    InvalidInput,
    /// The engine's configuration cannot keep the balance guarantee
    /// (fewer than two slots per block, or a missing queue).
    ConfigurationError,
    /// The derived key has no pre-initialized queue. Defensive: with the
    /// closed key domain this is never reached.
    UnknownStrata,
}

/// The age band a given age falls in: the boundary age 55 belongs to the
/// upper band.
pub open spec fn age_band_of(age: int) -> AgeBand {
    if age < 55 {
        AgeBand::Under55
    } else {
        AgeBand::AtLeast55
    }
}

/// Derives the stratification key of a subject. Pure; rejects a negative age.
pub fn derive_key(gender: Gender, age: i64) -> (r: Result<StrataKey, AllocError>)
    ensures
        age >= 0 ==> r == Ok::<StrataKey, AllocError>(
            StrataKey { gender, age_band: age_band_of(age as int) },
        ),
        age < 0 ==> r == Err::<StrataKey, AllocError>(AllocError::InvalidInput),
{
    if age < 0 {
        Err(AllocError::InvalidInput)
    } else if age < 55 {
        Ok(StrataKey { gender, age_band: AgeBand::Under55 })
    } else {
        Ok(StrataKey { gender, age_band: AgeBand::AtLeast55 })
    }
}

/// The position of a key in the fixed enumeration of the four strata.
pub open spec fn key_index_spec(key: StrataKey) -> int {
    match (key.gender, key.age_band) {
        (Gender::Male, AgeBand::Under55) => 0,
        (Gender::Male, AgeBand::AtLeast55) => 1,
        (Gender::Female, AgeBand::Under55) => 2,
        (Gender::Female, AgeBand::AtLeast55) => 3,
    }
}

/// Maps a key to the index of its queue; the four keys cover 0 through 3.
pub fn key_index(key: StrataKey) -> (i: usize)
    ensures
        i == key_index_spec(key),
        i < 4,
{
    match (key.gender, key.age_band) {
        (Gender::Male, AgeBand::Under55) => 0,
        (Gender::Male, AgeBand::AtLeast55) => 1,
        (Gender::Female, AgeBand::Under55) => 2,
        (Gender::Female, AgeBand::AtLeast55) => 3,
    }
}

} // verus!
