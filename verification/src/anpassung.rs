//! Validities of one set that overlap: the earlier one is shortened.
use vstd::prelude::*;
use crate::modell::{
    daten_vorhanden, ende_nach, fenster_ende, mit_gueltigkeit, sichten, Fehler, GueltigkeitSicht,
    ProzedurMitGueltigkeit,
};
use crate::ordnung::{indizes, lemma_reihenfolge, ordne, reihenfolge, werte};
use crate::zeit::{ganze_tage, im_bereich, Zeitpunkt};

verus! {

/// The whole days between the end of the validity of `erste` and the
/// procedure of `zweite`: negative where the procedure falls into the validity.
pub open spec fn luecke_tage(erste: GueltigkeitSicht, zweite: GueltigkeitSicht) -> int {
    ganze_tage(zweite.prozedur.datum->0 - fenster_ende(erste))
}

/// The days left to `erste` where its validity reaches the procedure of
/// `zweite` or ends less than a day before it; nothing where a day or more
/// lies between.
pub open spec fn ueberschneidung(erste: GueltigkeitSicht, zweite: GueltigkeitSicht) -> Option<int> {
    if luecke_tage(erste, zweite) > 0 {
        None
    } else {
        Some(erste.validity + luecke_tage(erste, zweite))
    }
}

/// The validity that `erste` keeps beside `zweite`, the next procedure of its set.
pub open spec fn gueltigkeit_neben(erste: GueltigkeitSicht, zweite: GueltigkeitSicht) -> int {
    match ueberschneidung(erste, zweite) {
        Some(tage) => tage,
        None => erste.validity,
    }
}

/// The end of a validity that is cut down to the next procedure lies between
/// that procedure, or the end before, and the end before.
pub proof fn lemma_gekuerztes_ende(datum: int, tage: int, naechstes: int)
    requires
        ganze_tage(naechstes - ende_nach(datum, tage)) <= 0,
    ensures
        ({
            let neu = tage + ganze_tage(naechstes - ende_nach(datum, tage));
            &&& ende_nach(datum, neu) <= ende_nach(datum, tage)
            &&& naechstes <= ende_nach(datum, tage) ==> naechstes <= ende_nach(datum, neu)
            &&& naechstes >= ende_nach(datum, tage) ==> neu == tage
        }),
{
}

/// A copy of the record with a validity of `validity` days and the end that
/// follows from it: that many days after the procedure, but not after the
/// discharge.
pub fn new_prozedur_with_validity<'a>(
    prozedur_mit_gueltigkeit: &ProzedurMitGueltigkeit<'a>,
    validity: i32,
) -> (r: Result<ProzedurMitGueltigkeit<'a>, Fehler>)
    ensures
        match r {
            Ok(neu) => {
                &&& daten_vorhanden(prozedur_mit_gueltigkeit@)
                &&& im_bereich(
                    ende_nach(prozedur_mit_gueltigkeit@.prozedur.datum->0, validity as int),
                )
                &&& neu@ == mit_gueltigkeit(prozedur_mit_gueltigkeit@, validity as int)
            },
            Err(Fehler::FehlendesDatum) => !daten_vorhanden(prozedur_mit_gueltigkeit@),
            Err(Fehler::DatumAusserhalb) => {
                &&& daten_vorhanden(prozedur_mit_gueltigkeit@)
                &&& !im_bereich(
                    ende_nach(prozedur_mit_gueltigkeit@.prozedur.datum->0, validity as int),
                )
            },
        },
{
    let datum = match prozedur_mit_gueltigkeit.prozedur.datum {
        Some(d) => d,
        None => { return Err(Fehler::FehlendesDatum); },
    };
    let entlass = match prozedur_mit_gueltigkeit.entlass_datum {
        Some(e) => e,
        None => { return Err(Fehler::FehlendesDatum); },
    };
    let ende = match datum.plus_tage(validity) {
        Some(e) => e,
        None => { return Err(Fehler::DatumAusserhalb); },
    };
    let beendet = if ende.nicht_nach(&entlass) {
        ende
    } else {
        entlass
    };
    Ok(
        ProzedurMitGueltigkeit {
            prozedur: prozedur_mit_gueltigkeit.prozedur.clone(),
            validity,
            validity_katalog: prozedur_mit_gueltigkeit.validity_katalog,
            validity_set: prozedur_mit_gueltigkeit.validity_set.clone(),
            treatment_type: prozedur_mit_gueltigkeit.treatment_type.clone(),
            validity_group: prozedur_mit_gueltigkeit.validity_group.clone(),
            prozedur_beendet: Some(beendet),
            entlass_datum: Some(entlass),
        },
    )
}

/// The validity that is left to `erste` where it overlaps with `zweite`, the
/// next procedure of its set, or nothing where the two do not overlap.
pub fn calc_ueberschneidung(
    erste: &ProzedurMitGueltigkeit,
    zweite: &ProzedurMitGueltigkeit,
) -> (r: Result<Option<i32>, Fehler>)
    ensures
        match r {
            Ok(tage) => {
                &&& erste@.prozedur.datum is Some
                &&& zweite@.prozedur.datum is Some
                &&& im_bereich(fenster_ende(erste@))
                &&& match tage {
                    Some(t) => ueberschneidung(erste@, zweite@) == Some(t as int),
                    None => ueberschneidung(erste@, zweite@) is None,
                }
            },
            Err(Fehler::FehlendesDatum) => {
                ||| erste@.prozedur.datum is None
                ||| zweite@.prozedur.datum is None
            },
            Err(Fehler::DatumAusserhalb) => {
                &&& erste@.prozedur.datum is Some
                &&& zweite@.prozedur.datum is Some
                &&& !im_bereich(fenster_ende(erste@))
            },
        },
{
    let start_erste = match erste.prozedur.datum {
        Some(d) => d,
        None => { return Err(Fehler::FehlendesDatum); },
    };
    let start_zweite = match zweite.prozedur.datum {
        Some(d) => d,
        None => { return Err(Fehler::FehlendesDatum); },
    };
    let ende_erste = match start_erste.plus_tage(erste.validity) {
        Some(e) => e,
        None => { return Err(Fehler::DatumAusserhalb); },
    };
    let tage: i64 = ende_erste.tage_bis(&start_zweite);
    if tage > 0 {
        Ok(None)
    } else {
        proof {
            use_type_invariant(&start_erste);
            start_erste.lemma_gueltig_im_bereich();
            ende_erste.lemma_gueltig_im_bereich();
        }
        let tage_neu: i64 = erste.validity as i64 + tage;
        Ok(Some(tage_neu as i32))
    }
}

/// When the procedure of a record was performed.
pub open spec fn zeit_von(p: GueltigkeitSicht) -> int {
    p.prozedur.datum->0
}

/// When the procedures of a group were performed, in the group's order.
pub open spec fn zeiten_von(gruppe: Seq<GueltigkeitSicht>) -> Seq<int> {
    gruppe.map_values(|p: GueltigkeitSicht| zeit_von(p))
}

/// The group ordered by the time of the procedures, earliest first; records
/// of the same time stay in their order.
pub open spec fn sortiert(gruppe: Seq<GueltigkeitSicht>) -> Seq<GueltigkeitSicht> {
    reihenfolge(zeiten_von(gruppe)).map_values(|i: int| gruppe[i])
}

/// The record at place `i` of an ordered group, with the validity that it
/// keeps beside the record behind it; the last record keeps its validity.
pub open spec fn angepasst_an(s: Seq<GueltigkeitSicht>, i: int) -> GueltigkeitSicht {
    if i + 1 < s.len() {
        mit_gueltigkeit(s[i], gueltigkeit_neben(s[i], s[i + 1]))
    } else {
        mit_gueltigkeit(s[i], s[i].validity)
    }
}

/// The group in the order of its procedures, each record with the validity
/// that it keeps beside the next one.
pub open spec fn angepasst(gruppe: Seq<GueltigkeitSicht>) -> Seq<GueltigkeitSicht> {
    let s = sortiert(gruppe);
    Seq::new(s.len(), |i: int| angepasst_an(s, i))
}

/// Each record of the list has both of its dates.
pub open spec fn alle_daten_vorhanden(liste: Seq<GueltigkeitSicht>) -> bool {
    forall|i: int| 0 <= i < liste.len() ==> daten_vorhanden(#[trigger] liste[i])
}

/// The validity of each record of the list ends at a date that can be held.
pub open spec fn alle_fenster_im_bereich(liste: Seq<GueltigkeitSicht>) -> bool {
    forall|i: int| 0 <= i < liste.len() ==> im_bereich(fenster_ende(#[trigger] liste[i]))
}

/// When the procedures of the group were performed, in the group's order,
/// where each record has its dates and a validity that ends at a date that can
/// be held.
fn zeiten_der_gruppe(gruppe: &Vec<ProzedurMitGueltigkeit>) -> (r: Result<Vec<Zeitpunkt>, Fehler>)
    ensures
        match r {
            Ok(zeiten) => {
                &&& alle_daten_vorhanden(sichten(gruppe@))
                &&& alle_fenster_im_bereich(sichten(gruppe@))
                &&& werte(zeiten@) == zeiten_von(sichten(gruppe@))
                &&& forall|i: int| 0 <= i < zeiten@.len() ==> im_bereich(#[trigger] zeiten@[i]@)
            },
            Err(Fehler::FehlendesDatum) => !alle_daten_vorhanden(sichten(gruppe@)),
            Err(Fehler::DatumAusserhalb) => {
                &&& alle_daten_vorhanden(sichten(gruppe@))
                &&& !alle_fenster_im_bereich(sichten(gruppe@))
            },
        },
{
    let ghost s = sichten(gruppe@);
    let mut zeiten: Vec<Zeitpunkt> = Vec::new();
    let mut i: usize = 0;
    while i < gruppe.len()
        invariant
            0 <= i <= gruppe.len(),
            s == sichten(gruppe@),
            zeiten@.len() == i,
            forall|j: int| 0 <= j < i ==> daten_vorhanden(#[trigger] s[j]),
            forall|j: int| 0 <= j < i ==> (#[trigger] zeiten@[j])@ == zeit_von(s[j]),
            forall|j: int| 0 <= j < i ==> im_bereich((#[trigger] zeiten@[j])@),
        decreases gruppe.len() - i,
    {
        assert(s[i as int] == gruppe@[i as int]@);
        let datum = match gruppe[i].prozedur.datum {
            Some(d) => d,
            None => {
                assert(!daten_vorhanden(s[i as int]));
                return Err(Fehler::FehlendesDatum);
            },
        };
        if gruppe[i].entlass_datum.is_none() {
            assert(!daten_vorhanden(s[i as int]));
            return Err(Fehler::FehlendesDatum);
        }
        proof {
            use_type_invariant(&datum);
            datum.lemma_gueltig_im_bereich();
        }
        zeiten.push(datum);
        i = i + 1;
    }
    assert(werte(zeiten@) =~= zeiten_von(s));
    let mut k: usize = 0;
    while k < gruppe.len()
        invariant
            0 <= k <= gruppe.len(),
            s == sichten(gruppe@),
            zeiten@.len() == gruppe@.len(),
            alle_daten_vorhanden(s),
            forall|j: int| 0 <= j < zeiten@.len() ==> (#[trigger] zeiten@[j])@ == zeit_von(s[j]),
            forall|j: int| 0 <= j < k ==> im_bereich(fenster_ende(#[trigger] s[j])),
        decreases gruppe.len() - k,
    {
        assert(s[k as int] == gruppe@[k as int]@);
        if zeiten[k].plus_tage(gruppe[k].validity).is_none() {
            assert(!im_bereich(fenster_ende(s[k as int])));
            return Err(Fehler::DatumAusserhalb);
        }
        k = k + 1;
    }
    Ok(zeiten)
}

/// The records of one validity set in the order of their procedures, each
/// with the validity that it keeps beside the next one: a validity that
/// reaches the next procedure, or ends less than a day before it, is cut down
/// by the whole days between its end and that procedure. No validity ends
/// after the discharge.
pub fn gueltigkeit_anpassen<'a>(proc_with_validities: &Vec<ProzedurMitGueltigkeit<'a>>) -> (r:
    Result<Vec<ProzedurMitGueltigkeit<'a>>, Fehler>)
    ensures
        match r {
            Ok(result) => {
                &&& alle_daten_vorhanden(sichten(proc_with_validities@))
                &&& alle_fenster_im_bereich(sichten(proc_with_validities@))
                &&& sichten(result@) == angepasst(sichten(proc_with_validities@))
            },
            Err(Fehler::FehlendesDatum) => !alle_daten_vorhanden(sichten(proc_with_validities@)),
            Err(Fehler::DatumAusserhalb) => {
                &&& alle_daten_vorhanden(sichten(proc_with_validities@))
                &&& !alle_fenster_im_bereich(sichten(proc_with_validities@))
            },
        },
{
    let zeiten = match zeiten_der_gruppe(proc_with_validities) {
        Ok(z) => z,
        Err(e) => { return Err(e); },
    };
    let idx = ordne(&zeiten);
    let ghost g = sichten(proc_with_validities@);
    let ghost s = sortiert(g);
    proof {
        lemma_reihenfolge(zeiten_von(g));
        assert(s.len() == g.len());
    }
    let mut result: Vec<ProzedurMitGueltigkeit<'a>> = Vec::new();
    let mut i: usize = 0;
    while i < idx.len()
        invariant
            0 <= i <= idx.len(),
            idx@.len() == proc_with_validities@.len(),
            g == sichten(proc_with_validities@),
            s == sortiert(g),
            s.len() == g.len(),
            indizes(idx@) == reihenfolge(zeiten_von(g)),
            forall|j: int| 0 <= j < idx@.len() ==> #[trigger] idx@[j] < proc_with_validities@.len(),
            alle_daten_vorhanden(g),
            alle_fenster_im_bereich(g),
            werte(zeiten@) == zeiten_von(g),
            forall|j: int| 0 <= j < zeiten@.len() ==> im_bereich(#[trigger] zeiten@[j]@),
            result@.len() == i,
            forall|j: int| 0 <= j < i ==> (#[trigger] result@[j])@ == angepasst_an(s, j),
        decreases idx.len() - i,
    {
        let a: usize = idx[i];
        let p = &proc_with_validities[a];
        proof {
            assert(indizes(idx@)[i as int] == a as int);
            assert(s[i as int] == g[a as int]);
            assert(g[a as int] == p@);
            assert(daten_vorhanden(g[a as int]));
            assert(im_bereich(fenster_ende(g[a as int])));
        }
        let validity: i32 = if i + 1 < idx.len() {
            let b: usize = idx[i + 1];
            let q = &proc_with_validities[b];
            proof {
                assert(indizes(idx@)[i + 1] == b as int);
                assert(s[i + 1] == g[b as int]);
                assert(g[b as int] == q@);
                assert(daten_vorhanden(g[b as int]));
                assert(werte(zeiten@)[b as int] == zeit_von(g[b as int]));
                assert(im_bereich(zeiten@[b as int]@));
                if luecke_tage(p@, q@) <= 0 {
                    lemma_gekuerztes_ende(zeit_von(p@), p@.validity, zeit_von(q@));
                }
            }
            match calc_ueberschneidung(p, q) {
                Ok(Some(tage)) => tage,
                Ok(None) => p.validity,
                Err(e) => { return Err(e); },
            }
        } else {
            p.validity
        };
        match new_prozedur_with_validity(p, validity) {
            Ok(neu) => {
                result.push(neu);
            },
            Err(e) => { return Err(e); },
        }
        i = i + 1;
    }
    assert(sichten(result@) =~= angepasst(g));
    Ok(result)
}

} // verus!
