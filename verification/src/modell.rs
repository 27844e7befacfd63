//! The records of a case: procedures, procedures with their validity, and
//! the case itself.
use vstd::prelude::*;
use crate::zeit::{frueherer, Zeitpunkt, NANOS_PRO_TAG};

verus! {

/// Why a case could not be worked on.
#[derive(Clone, Copy, Debug, PartialEq, Eq, Structural)]
pub enum Fehler {
    /// A date that the computation needs is not set.
    FehlendesDatum,
    /// The end of a validity lies outside the dates that can be held.
    DatumAusserhalb,
}

/// The value of a point in time that may be missing.
pub open spec fn zeit_sicht(z: Option<Zeitpunkt>) -> Option<int> {
    match z {
        Some(t) => Some(t@),
        None => None,
    }
}

/// A procedure that was performed: its code, a flag, and when it was performed.
#[derive(Debug, PartialEq, Eq)]
pub struct Prozedur<'li> {
    pub code: String,
    pub kennz: &'li str,
    pub datum: Option<Zeitpunkt>,
}

pub ghost struct ProzedurSicht {
    pub code: Seq<char>,
    pub kennz: Seq<char>,
    pub datum: Option<int>,
}

impl<'li> View for Prozedur<'li> {
    type V = ProzedurSicht;

    open spec fn view(&self) -> ProzedurSicht {
        ProzedurSicht { code: self.code@, kennz: self.kennz@, datum: zeit_sicht(self.datum) }
    }
}

impl<'li> Clone for Prozedur<'li> {
    fn clone(&self) -> (r: Self)
        ensures
            r == *self,
    {
        Prozedur { code: self.code.clone(), kennz: self.kennz, datum: self.datum }
    }
}

/// A procedure with the days for which it is valid, what the catalog says of
/// its code, the end of its validity and the discharge of its case.
#[derive(Debug, PartialEq, Eq)]
pub struct ProzedurMitGueltigkeit<'li> {
    pub prozedur: Prozedur<'li>,
    pub validity: i32,
    pub validity_katalog: i32,
    pub validity_set: String,
    pub treatment_type: String,
    pub validity_group: String,
    pub prozedur_beendet: Option<Zeitpunkt>,
    pub entlass_datum: Option<Zeitpunkt>,
}

pub ghost struct GueltigkeitSicht {
    pub prozedur: ProzedurSicht,
    pub validity: int,
    pub validity_katalog: int,
    pub validity_set: Seq<char>,
    pub treatment_type: Seq<char>,
    pub validity_group: Seq<char>,
    pub prozedur_beendet: Option<int>,
    pub entlass_datum: Option<int>,
}

impl<'li> View for ProzedurMitGueltigkeit<'li> {
    type V = GueltigkeitSicht;

    open spec fn view(&self) -> GueltigkeitSicht {
        GueltigkeitSicht {
            prozedur: self.prozedur@,
            validity: self.validity as int,
            validity_katalog: self.validity_katalog as int,
            validity_set: self.validity_set@,
            treatment_type: self.treatment_type@,
            validity_group: self.validity_group@,
            prozedur_beendet: zeit_sicht(self.prozedur_beendet),
            entlass_datum: zeit_sicht(self.entlass_datum),
        }
    }
}

impl<'li> Clone for ProzedurMitGueltigkeit<'li> {
    fn clone(&self) -> (r: Self)
        ensures
            r == *self,
    {
        ProzedurMitGueltigkeit {
            prozedur: self.prozedur.clone(),
            validity: self.validity,
            validity_katalog: self.validity_katalog,
            validity_set: self.validity_set.clone(),
            treatment_type: self.treatment_type.clone(),
            validity_group: self.validity_group.clone(),
            prozedur_beendet: self.prozedur_beendet,
            entlass_datum: self.entlass_datum,
        }
    }
}

/// The records of a list as values, in the list's order.
pub open spec fn sichten(liste: Seq<ProzedurMitGueltigkeit>) -> Seq<GueltigkeitSicht> {
    liste.map_values(|p: ProzedurMitGueltigkeit| p@)
}

/// Both dates that the validity of a record is computed from are set: when the
/// procedure was performed, and the discharge.
pub open spec fn daten_vorhanden(p: GueltigkeitSicht) -> bool {
    p.prozedur.datum is Some && p.entlass_datum is Some
}

/// The end of the validity of `tage` days of a procedure performed at `datum`.
pub open spec fn ende_nach(datum: int, tage: int) -> int {
    datum + tage * NANOS_PRO_TAG
}

/// Where the validity of a record ends, the discharge left aside.
pub open spec fn fenster_ende(p: GueltigkeitSicht) -> int {
    ende_nach(p.prozedur.datum->0, p.validity)
}

/// The record with a validity of `tage` days: its validity ends that many days
/// after the procedure, but not after the discharge.
pub open spec fn mit_gueltigkeit(p: GueltigkeitSicht, tage: int) -> GueltigkeitSicht {
    GueltigkeitSicht {
        validity: tage,
        prozedur_beendet: Some(
            frueherer(ende_nach(p.prozedur.datum->0, tage), p.entlass_datum->0),
        ),
        ..p
    }
}

/// The end that a record states is the end of its validity, and not after the
/// discharge.
pub open spec fn wohlgeformt(p: GueltigkeitSicht) -> bool {
    daten_vorhanden(p) && p.prozedur_beendet == Some(
        frueherer(fenster_ende(p), p.entlass_datum->0),
    )
}

/// A case: its procedures in the order in which they were recorded, the
/// admission and the discharge.
pub struct Fall<'a> {
    pub ops: Vec<Prozedur<'a>>,
    pub adt: Option<Zeitpunkt>,
    pub sdt: Option<Zeitpunkt>,
}

pub ghost struct FallSicht {
    pub ops: Seq<ProzedurSicht>,
    pub adt: Option<int>,
    pub sdt: Option<int>,
}

impl<'a> View for Fall<'a> {
    type V = FallSicht;

    open spec fn view(&self) -> FallSicht {
        FallSicht {
            ops: self.ops@.map_values(|p: Prozedur| p@),
            adt: zeit_sicht(self.adt),
            sdt: zeit_sicht(self.sdt),
        }
    }
}

} // verus!
