//! Points in time, counted in nanoseconds since 1970-01-01 00:00:00, and the
//! day arithmetic on them, which `chrono` carries out.
use vstd::prelude::*;

verus! {

pub const NANOS_PRO_SEKUNDE: i64 = 1_000_000_000;

pub const SEKUNDEN_PRO_TAG: i64 = 86_400;

pub const NANOS_PRO_TAG: i64 = 86_400_000_000_000;

/// Second of `chrono::NaiveDateTime::MIN`, the first instant of the year -262143.
pub const MIN_SEKUNDEN: i64 = -8_334_601_228_800;

/// Last whole second of `chrono::NaiveDateTime::MAX`, in the year 262142.
pub const MAX_SEKUNDEN: i64 = 8_210_266_876_799;

/// The instant `nanos` nanoseconds after second `sek`, in nanoseconds.
pub open spec fn zeit_wert(sek: int, nanos: int) -> int {
    sek * NANOS_PRO_SEKUNDE + nanos
}

/// A second and a fraction of it that `chrono` can hold as a date and time
/// without a leap second.
pub open spec fn darstellbar(sek: int, nanos: int) -> bool {
    MIN_SEKUNDEN <= sek <= MAX_SEKUNDEN && 0 <= nanos < NANOS_PRO_SEKUNDE
}

/// The instants, in nanoseconds, between the first and the last date and time
/// of `chrono`.
pub open spec fn im_bereich(t: int) -> bool {
    MIN_SEKUNDEN * NANOS_PRO_SEKUNDE <= t < (MAX_SEKUNDEN + 1) * NANOS_PRO_SEKUNDE
}

/// The whole days in a span of `d` nanoseconds, rounded towards zero.
pub open spec fn ganze_tage(d: int) -> int {
    if d >= 0 {
        d / (NANOS_PRO_TAG as int)
    } else {
        -((-d) / (NANOS_PRO_TAG as int))
    }
}

/// The earlier of two instants.
pub open spec fn frueherer(a: int, b: int) -> int {
    if a <= b {
        a
    } else {
        b
    }
}

/// `chrono::NaiveDateTime::checked_add_signed` with a `TimeDelta` of `tage`
/// days, on the date and time that `chrono::DateTime::from_timestamp` makes of
/// `sek` and `nanos`. The sum keeps the fraction of a second and moves the
/// second by 86400 for each day; there is none where it would leave the years
/// from `NaiveDateTime::MIN` to `NaiveDateTime::MAX`.
#[verifier::external_body]
fn chrono_plus_tage(sek: i64, nanos: u32, tage: i32) -> (r: Option<(i64, u32)>)
    requires
        darstellbar(sek as int, nanos as int),
    ensures
        r is Some <==> MIN_SEKUNDEN <= sek + SEKUNDEN_PRO_TAG * tage <= MAX_SEKUNDEN,
        r matches Some(p) ==> p.0 == sek + SEKUNDEN_PRO_TAG * tage && p.1 == nanos,
{
    let start = chrono::DateTime::from_timestamp(sek, nanos)?.naive_utc();
    let dauer = chrono::TimeDelta::try_days(i64::from(tage))?;
    let summe = start.checked_add_signed(dauer)?.and_utc();
    Some((summe.timestamp(), summe.timestamp_subsec_nanos()))
}

/// `chrono::NaiveDateTime::signed_duration_since` followed by
/// `chrono::TimeDelta::num_days`: the whole days from the first instant to the
/// second, rounded towards zero, negative where the second is the earlier one.
#[verifier::external_body]
fn chrono_tage_zwischen(sek_a: i64, nanos_a: u32, sek_b: i64, nanos_b: u32) -> (r: Option<i64>)
    requires
        darstellbar(sek_a as int, nanos_a as int),
        darstellbar(sek_b as int, nanos_b as int),
    ensures
        r == Some(
            ganze_tage(
                zeit_wert(sek_b as int, nanos_b as int) - zeit_wert(sek_a as int, nanos_a as int),
            ) as i64,
        ),
{
    let a = chrono::DateTime::from_timestamp(sek_a, nanos_a)?.naive_utc();
    let b = chrono::DateTime::from_timestamp(sek_b, nanos_b)?.naive_utc();
    Some(b.signed_duration_since(a).num_days())
}

/// A date and time of day without a time zone, to the nanosecond.
#[derive(Clone, Copy, Debug, PartialEq, Eq, Structural)]
pub struct Zeitpunkt {
    sek: i64,
    nanos: u32,
}

impl View for Zeitpunkt {
    type V = int;

    /// Nanoseconds since 1970-01-01 00:00:00.
    closed spec fn view(&self) -> int {
        zeit_wert(self.sek as int, self.nanos as int)
    }
}

impl Zeitpunkt {
    #[verifier::type_invariant]
    pub closed spec fn gueltig(self) -> bool {
        darstellbar(self.sek as int, self.nanos as int)
    }

    /// A valid point in time lies between the first and the last date of `chrono`.
    pub proof fn lemma_gueltig_im_bereich(self)
        requires
            self.gueltig(),
        ensures
            im_bereich(self@),
    {
    }

    /// The point in time `nanos` nanoseconds after the second `sek` since
    /// 1970-01-01 00:00:00, where `chrono` can hold it.
    pub fn new(sek: i64, nanos: u32) -> (r: Option<Zeitpunkt>)
        ensures
            r is Some <==> darstellbar(sek as int, nanos as int),
            r matches Some(z) ==> z@ == zeit_wert(sek as int, nanos as int) && z.gueltig(),
    {
        if MIN_SEKUNDEN <= sek && sek <= MAX_SEKUNDEN && nanos < 1_000_000_000 {
            Some(Zeitpunkt { sek, nanos })
        } else {
            None
        }
    }

    /// Whole seconds since 1970-01-01 00:00:00, rounded down.
    pub fn sekunden(&self) -> (r: i64)
        ensures
            r == self@ / (NANOS_PRO_SEKUNDE as int),
    {
        proof {
            use_type_invariant(self);
        }
        self.sek
    }

    /// Nanoseconds since the last whole second.
    pub fn nanos(&self) -> (r: u32)
        ensures
            r == self@ % (NANOS_PRO_SEKUNDE as int),
    {
        proof {
            use_type_invariant(self);
        }
        self.nanos
    }

    /// Whether this point in time is not later than `other`.
    pub fn nicht_nach(&self, other: &Zeitpunkt) -> (r: bool)
        ensures
            r == (self@ <= other@),
    {
        proof {
            use_type_invariant(self);
            use_type_invariant(other);
        }
        self.sek < other.sek || (self.sek == other.sek && self.nanos <= other.nanos)
    }

    /// The point in time `tage` days later (earlier, where `tage` is negative),
    /// or nothing where no date can hold it.
    pub fn plus_tage(&self, tage: i32) -> (r: Option<Zeitpunkt>)
        ensures
            r is Some <==> im_bereich(self@ + tage * NANOS_PRO_TAG),
            r matches Some(z) ==> z@ == self@ + tage * NANOS_PRO_TAG && z.gueltig(),
    {
        proof {
            use_type_invariant(self);
        }
        match chrono_plus_tage(self.sek, self.nanos, tage) {
            Some((sek, nanos)) => Some(Zeitpunkt { sek, nanos }),
            None => None,
        }
    }

    /// The whole days from this point in time to `spaeter`, rounded towards
    /// zero; negative where `spaeter` is the earlier one.
    pub fn tage_bis(&self, spaeter: &Zeitpunkt) -> (r: i64)
        ensures
            r == ganze_tage(spaeter@ - self@),
            -200_000_000 < r < 200_000_000,
    {
        proof {
            use_type_invariant(self);
            use_type_invariant(spaeter);
        }
        let tage = chrono_tage_zwischen(self.sek, self.nanos, spaeter.sek, spaeter.nanos);
        tage.unwrap()
    }
}

} // verus!
