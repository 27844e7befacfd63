//! From a case to its procedures with corrected validities: each procedure
//! gets the validity of its code, the records are grouped by validity set,
//! and within each group overlapping validities are shortened.
use vstd::prelude::*;
use crate::anpassung::{
    alle_daten_vorhanden, alle_fenster_im_bereich, angepasst, gueltigkeit_anpassen,
};
use crate::katalog::{
    finde_tabelle, katalog_sicht, klassifikation, GtTable, GtTableSicht,
};
use crate::modell::{
    daten_vorhanden, ende_nach, fenster_ende, sichten, Fall, FallSicht, Fehler, GueltigkeitSicht,
    Prozedur, ProzedurMitGueltigkeit, ProzedurSicht,
};
use crate::zeit::{frueherer, im_bereich};

verus! {

/// The record of a procedure in a case with the discharge `entlass`: the
/// validity and the names that the catalog gives for its code, and the end of
/// that validity, which is not after the discharge.
pub open spec fn klassifizierte(
    p: ProzedurSicht,
    entlass: Option<int>,
    katalog: Seq<GtTableSicht>,
) -> GueltigkeitSicht {
    let k = klassifikation(katalog, p.code);
    GueltigkeitSicht {
        prozedur: p,
        validity: k.validity,
        validity_katalog: k.validity,
        validity_set: k.validity_set,
        treatment_type: k.treatment_type,
        validity_group: k.validity_group,
        prozedur_beendet: Some(frueherer(ende_nach(p.datum->0, k.validity), entlass->0)),
        entlass_datum: entlass,
    }
}

/// The records of the procedures of a case, in the order of the procedures.
pub open spec fn klassifiziert(fall: FallSicht, katalog: Seq<GtTableSicht>) -> Seq<
    GueltigkeitSicht,
> {
    fall.ops.map_values(|p: ProzedurSicht| klassifizierte(p, fall.sdt, katalog))
}

/// The case has its admission, its discharge, and the date of each procedure.
pub open spec fn fall_daten_vorhanden(fall: FallSicht) -> bool {
    &&& fall.adt is Some
    &&& fall.sdt is Some
    &&& forall|i: int| 0 <= i < fall.ops.len() ==> (#[trigger] fall.ops[i]).datum is Some
}

/// The names of the validity sets of the first `n` records, each once, in the
/// order in which they first occur.
pub open spec fn mengen_bis(liste: Seq<GueltigkeitSicht>, n: nat) -> Seq<Seq<char>>
    decreases n,
{
    if n == 0 {
        Seq::empty()
    } else {
        let davor = mengen_bis(liste, (n - 1) as nat);
        if davor.contains(liste[n - 1].validity_set) {
            davor
        } else {
            davor.push(liste[n - 1].validity_set)
        }
    }
}

/// Whether a record belongs to the validity set `name`.
pub open spec fn in_menge(name: Seq<char>) -> spec_fn(GueltigkeitSicht) -> bool {
    |p: GueltigkeitSicht| p.validity_set == name
}

/// The records of the validity set `name`, in the order of the list.
pub open spec fn gruppe_von(liste: Seq<GueltigkeitSicht>, name: Seq<char>) -> Seq<
    GueltigkeitSicht,
> {
    liste.filter(in_menge(name))
}

/// The records by validity set: one group for each name that occurs, the
/// empty name too, the groups in the order in which their names first occur.
pub open spec fn gruppiert(liste: Seq<GueltigkeitSicht>) -> Seq<Seq<GueltigkeitSicht>> {
    mengen_bis(liste, liste.len()).map_values(|name: Seq<char>| gruppe_von(liste, name))
}

/// Each group with its validities adjusted.
pub open spec fn alle_angepasst(gruppen: Seq<Seq<GueltigkeitSicht>>) -> Seq<Seq<GueltigkeitSicht>> {
    gruppen.map_values(|g: Seq<GueltigkeitSicht>| angepasst(g))
}

/// The records of a case with corrected validities, group after group.
pub open spec fn korrigiert(fall: FallSicht, katalog: Seq<GtTableSicht>) -> Seq<GueltigkeitSicht> {
    alle_angepasst(gruppiert(klassifiziert(fall, katalog))).flatten()
}

/// The groups of a list of groups as values.
pub open spec fn gruppen_sichten(gruppen: Seq<Vec<ProzedurMitGueltigkeit>>) -> Seq<
    Seq<GueltigkeitSicht>,
> {
    gruppen.map_values(|g: Vec<ProzedurMitGueltigkeit>| sichten(g@))
}

/// The record of the procedure `p` of the case `f`: the validity and the
/// names of the first table of the catalog that has its code, or one day and
/// empty names where none has it.
pub fn to_prozedur_with_validity<'a>(p: &Prozedur<'a>, f: &Fall, gt_tables: &Vec<GtTable>) -> (r:
    Result<ProzedurMitGueltigkeit<'a>, Fehler>)
    ensures
        match r {
            Ok(neu) => {
                &&& p@.datum is Some
                &&& f@.sdt is Some
                &&& neu@ == klassifizierte(p@, f@.sdt, katalog_sicht(gt_tables@))
                &&& im_bereich(fenster_ende(neu@))
            },
            Err(Fehler::FehlendesDatum) => p@.datum is None || f@.sdt is None,
            Err(Fehler::DatumAusserhalb) => {
                &&& p@.datum is Some
                &&& f@.sdt is Some
                &&& !im_bereich(
                    fenster_ende(klassifizierte(p@, f@.sdt, katalog_sicht(gt_tables@))),
                )
            },
        },
{
    let entlass = match f.sdt {
        Some(e) => e,
        None => { return Err(Fehler::FehlendesDatum); },
    };
    let datum = match p.datum {
        Some(d) => d,
        None => { return Err(Fehler::FehlendesDatum); },
    };
    let (v, vs, tt, vg) = match finde_tabelle(gt_tables, p.code.as_str()) {
        Some(i) => {
            let t = &gt_tables[i];
            assert(katalog_sicht(gt_tables@)[i as int] == t@);
            (t.Validity, t.ValiditySet.clone(), t.TreatmentType.clone(), t.ValidityGroup.clone())
        },
        None => (1i32, String::new(), String::new(), String::new()),
    };
    let ende = match datum.plus_tage(v) {
        Some(e) => e,
        None => { return Err(Fehler::DatumAusserhalb); },
    };
    let beendet = if ende.nicht_nach(&entlass) {
        ende
    } else {
        entlass
    };
    Ok(
        ProzedurMitGueltigkeit {
            prozedur: p.clone(),
            validity: v,
            validity_katalog: v,
            validity_set: vs,
            treatment_type: tt,
            validity_group: vg,
            prozedur_beendet: Some(beendet),
            entlass_datum: Some(entlass),
        },
    )
}

/// The names of the sets of the records at the places `erste`.
pub open spec fn namen(liste: Seq<GueltigkeitSicht>, erste: Seq<usize>) -> Seq<Seq<char>> {
    erste.map_values(|i: usize| liste[i as int].validity_set)
}

/// For each validity set that occurs, the place of its first record, in the
/// order of the list.
fn erste_der_mengen(liste: &Vec<ProzedurMitGueltigkeit>) -> (r: Vec<usize>)
    ensures
        namen(sichten(liste@), r@) == mengen_bis(sichten(liste@), liste@.len()),
        forall|j: int| 0 <= j < r@.len() ==> #[trigger] r@[j] < liste@.len(),
{
    let ghost s = sichten(liste@);
    let mut erste: Vec<usize> = Vec::new();
    let mut k: usize = 0;
    assert(namen(s, erste@) =~= mengen_bis(s, 0));
    while k < liste.len()
        invariant
            0 <= k <= liste.len(),
            s == sichten(liste@),
            forall|j: int| 0 <= j < erste@.len() ==> #[trigger] erste@[j] < k,
            namen(s, erste@) == mengen_bis(s, k as nat),
        decreases liste.len() - k,
    {
        let ghost davor = namen(s, erste@);
        let mut j: usize = 0;
        let mut bekannt: bool = false;
        assert(s[k as int] == liste@[k as int]@);
        while j < erste.len() && !bekannt
            invariant
                0 <= j <= erste@.len(),
                k < liste.len(),
                s == sichten(liste@),
                davor == namen(s, erste@),
                forall|m: int| 0 <= m < erste@.len() ==> #[trigger] erste@[m] < k,
                bekannt ==> davor.contains(s[k as int].validity_set),
                !bekannt ==> forall|m: int| 0 <= m < j ==> davor[m] != s[k as int].validity_set,
            decreases erste.len() - j + (if bekannt { 0int } else { 1int }),
        {
            let e: usize = erste[j];
            assert(s[e as int] == liste@[e as int]@);
            assert(davor[j as int] == s[e as int].validity_set);
            if liste[e].validity_set == liste[k].validity_set {
                bekannt = true;
            } else {
                j = j + 1;
            }
        }
        if !bekannt {
            erste.push(k);
            assert(namen(s, erste@) =~= davor.push(s[k as int].validity_set));
        }
        k = k + 1;
    }
    erste
}

/// The records of the list that belong to the validity set `name`, in the
/// order of the list.
fn sammle_gruppe<'a>(liste: &Vec<ProzedurMitGueltigkeit<'a>>, name: &String) -> (r: Vec<
    ProzedurMitGueltigkeit<'a>,
>)
    ensures
        sichten(r@) == gruppe_von(sichten(liste@), name@),
{
    let ghost s = sichten(liste@);
    let mut gruppe: Vec<ProzedurMitGueltigkeit<'a>> = Vec::new();
    let mut m: usize = 0;
    proof {
        reveal(Seq::filter);
        assert(sichten(gruppe@) =~= s.take(0).filter(in_menge(name@)));
    }
    while m < liste.len()
        invariant
            0 <= m <= liste.len(),
            s == sichten(liste@),
            sichten(gruppe@) == s.take(m as int).filter(in_menge(name@)),
        decreases liste.len() - m,
    {
        proof {
            assert(s[m as int] == liste@[m as int]@);
            assert(s.take(m + 1) =~= s.take(m as int).push(s[m as int]));
            s.take(m as int).lemma_filter_push(s[m as int], in_menge(name@));
        }
        if liste[m].validity_set == *name {
            let ghost alt = gruppe@;
            let kopie = liste[m].clone();
            gruppe.push(kopie);
            assert(sichten(gruppe@) =~= sichten(alt).push(s[m as int]));
        }
        m = m + 1;
    }
    assert(s.take(liste@.len() as int) =~= s);
    gruppe
}

/// The records by validity set: one group for each name that occurs, the
/// empty name too, the groups in the order in which their names first occur,
/// the records of a group in the order of the list.
pub fn gruppiere<'a>(liste: &Vec<ProzedurMitGueltigkeit<'a>>) -> (r: Vec<
    Vec<ProzedurMitGueltigkeit<'a>>,
>)
    ensures
        gruppen_sichten(r@) == gruppiert(sichten(liste@)),
{
    let ghost s = sichten(liste@);
    let erste = erste_der_mengen(liste);
    let mut gruppen: Vec<Vec<ProzedurMitGueltigkeit<'a>>> = Vec::new();
    let mut g: usize = 0;
    while g < erste.len()
        invariant
            0 <= g <= erste.len(),
            s == sichten(liste@),
            namen(s, erste@) == mengen_bis(s, liste@.len()),
            forall|j: int| 0 <= j < erste@.len() ==> #[trigger] erste@[j] < liste@.len(),
            gruppen@.len() == g,
            forall|j: int|
                0 <= j < g ==> sichten((#[trigger] gruppen@[j])@) == gruppe_von(
                    s,
                    namen(s, erste@)[j],
                ),
        decreases erste.len() - g,
    {
        let e: usize = erste[g];
        assert(s[e as int] == liste@[e as int]@);
        assert(namen(s, erste@)[g as int] == s[e as int].validity_set);
        let gruppe = sammle_gruppe(liste, &liste[e].validity_set);
        gruppen.push(gruppe);
        g = g + 1;
    }
    assert(gruppen_sichten(gruppen@) =~= gruppiert(s));
    gruppen
}

/// The procedures of the case with their corrected validities: the records of
/// each validity set in the order of their procedures, set after set in the
/// order in which the sets first occur among the procedures of the case.
pub fn DAYS_DAYTABLESCORE_GREATER_EQUALS<'a>(fall: &Fall<'a>, gt_tables: &Vec<GtTable>) -> (r:
    Result<Vec<ProzedurMitGueltigkeit<'a>>, Fehler>)
    ensures
        match r {
            Ok(korrigierte) => {
                &&& fall_daten_vorhanden(fall@)
                &&& alle_fenster_im_bereich(klassifiziert(fall@, katalog_sicht(gt_tables@)))
                &&& sichten(korrigierte@) == korrigiert(fall@, katalog_sicht(gt_tables@))
            },
            Err(Fehler::FehlendesDatum) => !fall_daten_vorhanden(fall@),
            Err(Fehler::DatumAusserhalb) => {
                &&& fall_daten_vorhanden(fall@)
                &&& !alle_fenster_im_bereich(klassifiziert(fall@, katalog_sicht(gt_tables@)))
            },
        },
{
    let ghost katalog = katalog_sicht(gt_tables@);
    let ghost klass = klassifiziert(fall@, katalog);
    if fall.adt.is_none() || fall.sdt.is_none() {
        return Err(Fehler::FehlendesDatum);
    }
    let mut n: usize = 0;
    while n < fall.ops.len()
        invariant
            0 <= n <= fall.ops.len(),
            forall|i: int| 0 <= i < n ==> (#[trigger] fall@.ops[i]).datum is Some,
        decreases fall.ops.len() - n,
    {
        assert(fall@.ops[n as int] == fall.ops@[n as int]@);
        if fall.ops[n].datum.is_none() {
            return Err(Fehler::FehlendesDatum);
        }
        n = n + 1;
    }
    let mut with_validity: Vec<ProzedurMitGueltigkeit<'a>> = Vec::new();
    let mut k: usize = 0;
    while k < fall.ops.len()
        invariant
            0 <= k <= fall.ops.len(),
            fall_daten_vorhanden(fall@),
            katalog == katalog_sicht(gt_tables@),
            klass == klassifiziert(fall@, katalog),
            with_validity@.len() == k,
            forall|i: int| 0 <= i < k ==> (#[trigger] with_validity@[i])@ == klass[i],
            forall|i: int| 0 <= i < k ==> im_bereich(fenster_ende(#[trigger] klass[i])),
        decreases fall.ops.len() - k,
    {
        assert(fall@.ops[k as int] == fall.ops@[k as int]@);
        assert(klass[k as int] == klassifizierte(fall@.ops[k as int], fall@.sdt, katalog));
        match to_prozedur_with_validity(&fall.ops[k], fall, gt_tables) {
            Ok(neu) => {
                with_validity.push(neu);
            },
            Err(e) => { return Err(e); },
        }
        k = k + 1;
    }
    assert(sichten(with_validity@) =~= klass);
    assert(alle_daten_vorhanden(klass)) by {
        assert forall|i: int| 0 <= i < klass.len() implies daten_vorhanden(#[trigger] klass[i]) by {
            assert(fall@.ops[i].datum is Some);
        }
    }
    let gruppen = gruppiere(&with_validity);
    let ghost ziel = alle_angepasst(gruppiert(klass));
    let mut korrigierte: Vec<ProzedurMitGueltigkeit<'a>> = Vec::new();
    let mut g: usize = 0;
    assert(sichten(korrigierte@) =~= ziel.take(0).flatten());
    while g < gruppen.len()
        invariant
            0 <= g <= gruppen.len(),
            gruppen_sichten(gruppen@) == gruppiert(klass),
            ziel == alle_angepasst(gruppiert(klass)),
            alle_daten_vorhanden(klass),
            alle_fenster_im_bereich(klass),
            sichten(korrigierte@) == ziel.take(g as int).flatten(),
        decreases gruppen.len() - g,
    {
        let ghost gruppe = sichten(gruppen@[g as int]@);
        proof {
            assert(gruppen_sichten(gruppen@)[g as int] == gruppe);
            let name = mengen_bis(klass, klass.len())[g as int];
            assert(gruppe == klass.filter(in_menge(name)));
            assert forall|i: int| 0 <= i < gruppe.len() implies daten_vorhanden(
                #[trigger] gruppe[i],
            ) && im_bereich(fenster_ende(gruppe[i])) by {
                assert(gruppe.contains(gruppe[i]));
                klass.lemma_filter_contains_rev(in_menge(name), gruppe[i]);
                let m = choose|m: int| 0 <= m < klass.len() && klass[m] == gruppe[i];
                assert(daten_vorhanden(klass[m]));
                assert(im_bereich(fenster_ende(klass[m])));
            }
            assert(ziel[g as int] == angepasst(gruppe));
            assert(ziel.take(g + 1) =~= ziel.take(g as int).push(ziel[g as int]));
            ziel.take(g as int).lemma_flatten_push(ziel[g as int]);
        }
        let mut res_vector = match gueltigkeit_anpassen(&gruppen[g]) {
            Ok(v) => v,
            Err(e) => { return Err(e); },
        };
        let ghost alt = korrigierte@;
        let ghost neu = res_vector@;
        korrigierte.append(&mut res_vector);
        assert(sichten(korrigierte@) =~= sichten(alt) + sichten(neu));
        g = g + 1;
    }
    assert(ziel.take(gruppen@.len() as int) =~= ziel);
    Ok(korrigierte)
}

} // verus!
