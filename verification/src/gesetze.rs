//! What holds of every case: laws of the corrected validities, proved from
//! the definitions that the functions of this crate are held to.
use vstd::prelude::*;
use vstd::multiset::Multiset;
use vstd::seq_lib::{
    lemma_multiset_commutative, to_multiset_build, to_multiset_contains, to_multiset_len,
    to_multiset_remove,
};
use crate::ablauf::{alle_angepasst, klassifizierte};
use crate::anpassung::{
    alle_daten_vorhanden, angepasst, angepasst_an, lemma_gekuerztes_ende, luecke_tage, sortiert,
    zeit_von, zeiten_von,
};
use crate::katalog::{lemma_ohne_tabelle_unklassifiziert, GtTableSicht};
use crate::modell::{
    daten_vorhanden, fenster_ende, mit_gueltigkeit, wohlgeformt, GueltigkeitSicht, ProzedurSicht,
};
use crate::ordnung::{kommt_vor, lemma_reihenfolge, platz, reihenfolge, reihenfolge_bis};
use crate::zeit::NANOS_PRO_TAG;

verus! {

/// The ordered group holds the records of the group, each place of the group
/// once, and no record stands before one that was performed earlier.
pub proof fn gesetz_sortiert(gruppe: Seq<GueltigkeitSicht>)
    ensures
        sortiert(gruppe).len() == gruppe.len(),
        angepasst(gruppe).len() == gruppe.len(),
        forall|k: int| 0 <= k < gruppe.len() ==> sortiert(gruppe).contains(#[trigger] gruppe[k]),
        forall|i: int, j: int|
            0 <= i < j < gruppe.len() ==> zeit_von(#[trigger] sortiert(gruppe)[i]) <= zeit_von(
                #[trigger] sortiert(gruppe)[j],
            ),
{
    let z = zeiten_von(gruppe);
    let r = reihenfolge(z);
    let s = sortiert(gruppe);
    lemma_reihenfolge(z);
    assert forall|k: int| 0 <= k < gruppe.len() implies s.contains(#[trigger] gruppe[k]) by {
        assert(r.contains(k));
        let i = choose|i: int| 0 <= i < r.len() && r[i] == k;
        assert(s[i] == gruppe[k]);
    }
    assert forall|i: int, j: int| 0 <= i < j < gruppe.len() implies zeit_von(#[trigger] s[i])
        <= zeit_von(#[trigger] s[j]) by {
        assert(kommt_vor(z, r[i], r[j]));
        assert(s[i] == gruppe[r[i]] && s[j] == gruppe[r[j]]);
    }
}

/// Adjusting changes the validity and its end only: each corrected record is
/// the record at its place of the ordered group in everything else.
pub proof fn gesetz_nur_gueltigkeit(gruppe: Seq<GueltigkeitSicht>, i: int)
    requires
        0 <= i < gruppe.len(),
    ensures
        angepasst(gruppe)[i] == (GueltigkeitSicht {
            validity: angepasst(gruppe)[i].validity,
            prozedur_beendet: angepasst(gruppe)[i].prozedur_beendet,
            ..sortiert(gruppe)[i]
        }),
{
    gesetz_sortiert(gruppe);
}

/// No overlap is left between a corrected record and the next one of its
/// group: the validity of the earlier one ends when the next procedure is
/// performed, or before. This holds where the validity did not reach the next
/// procedure, where it reached over it by whole days, and where the discharge
/// is not after the next procedure.
pub proof fn gesetz_keine_ueberschneidung(gruppe: Seq<GueltigkeitSicht>, i: int)
    requires
        0 <= i,
        i + 1 < gruppe.len(),
        ({
            let a = sortiert(gruppe)[i];
            let b = sortiert(gruppe)[i + 1];
            ||| fenster_ende(a) <= zeit_von(b)
            ||| (fenster_ende(a) - zeit_von(b)) % (NANOS_PRO_TAG as int) == 0
            ||| a.entlass_datum->0 <= zeit_von(b)
        }),
    ensures
        zeit_von(angepasst(gruppe)[i]) <= zeit_von(angepasst(gruppe)[i + 1]),
        angepasst(gruppe)[i].prozedur_beendet is Some,
        angepasst(gruppe)[i].prozedur_beendet->0 <= zeit_von(angepasst(gruppe)[i + 1]),
{
    gesetz_sortiert(gruppe);
    let a = sortiert(gruppe)[i];
    let b = sortiert(gruppe)[i + 1];
    if luecke_tage(a, b) <= 0 {
        lemma_gekuerztes_ende(zeit_von(a), a.validity, zeit_von(b));
    }
}

/// Where the validity of a record reaches over the next procedure of its
/// group by a part of a day, and the discharge is after that procedure, the
/// corrected validity still ends after that procedure: it is cut by whole days.
pub proof fn gesetz_rest_eines_tages(gruppe: Seq<GueltigkeitSicht>, i: int)
    requires
        0 <= i,
        i + 1 < gruppe.len(),
        ({
            let a = sortiert(gruppe)[i];
            let b = sortiert(gruppe)[i + 1];
            &&& fenster_ende(a) > zeit_von(b)
            &&& (fenster_ende(a) - zeit_von(b)) % (NANOS_PRO_TAG as int) != 0
            &&& a.entlass_datum->0 > zeit_von(b)
        }),
    ensures
        angepasst(gruppe)[i].prozedur_beendet->0 > zeit_von(angepasst(gruppe)[i + 1]),
        angepasst(gruppe)[i].prozedur_beendet->0 - zeit_von(angepasst(gruppe)[i + 1])
            < NANOS_PRO_TAG,
{
    gesetz_sortiert(gruppe);
}

/// No corrected validity ends after the discharge of the case.
pub proof fn gesetz_ende_vor_entlassung(gruppe: Seq<GueltigkeitSicht>, i: int)
    requires
        0 <= i < gruppe.len(),
    ensures
        angepasst(gruppe)[i].prozedur_beendet is Some,
        angepasst(gruppe)[i].prozedur_beendet->0 <= angepasst(gruppe)[i].entlass_datum->0,
        angepasst(gruppe)[i].entlass_datum == sortiert(gruppe)[i].entlass_datum,
{
    gesetz_sortiert(gruppe);
}

/// The record that a procedure with a date gets from the catalog, in a case
/// with a discharge, is well formed.
pub proof fn gesetz_klassifiziert_wohlgeformt(
    p: ProzedurSicht,
    entlass: Option<int>,
    katalog: Seq<GtTableSicht>,
)
    requires
        p.datum is Some,
        entlass is Some,
    ensures
        wohlgeformt(klassifizierte(p, entlass, katalog)),
        klassifizierte(p, entlass, katalog).prozedur_beendet->0 <= entlass->0,
{
}

/// Each corrected record of a group whose records have their dates is well
/// formed.
pub proof fn gesetz_angepasst_wohlgeformt(gruppe: Seq<GueltigkeitSicht>, i: int)
    requires
        alle_daten_vorhanden(gruppe),
        0 <= i < gruppe.len(),
    ensures
        wohlgeformt(angepasst(gruppe)[i]),
{
    lemma_reihenfolge(zeiten_von(gruppe));
    let k = reihenfolge(zeiten_von(gruppe))[i];
    assert(sortiert(gruppe)[i] == gruppe[k]);
    assert(daten_vorhanden(gruppe[k]));
}

/// A procedure whose code no table of the catalog has is valid for one day
/// and belongs to the validity set with the empty name.
pub proof fn gesetz_unklassifiziert(
    p: ProzedurSicht,
    entlass: Option<int>,
    katalog: Seq<GtTableSicht>,
)
    requires
        forall|j: int| 0 <= j < katalog.len() ==> !(#[trigger] katalog[j]).content.contains(p.code),
    ensures
        klassifizierte(p, entlass, katalog).validity == 1,
        klassifizierte(p, entlass, katalog).validity_katalog == 1,
        klassifizierte(p, entlass, katalog).validity_set == Seq::<char>::empty(),
        klassifizierte(p, entlass, katalog).treatment_type == Seq::<char>::empty(),
        klassifizierte(p, entlass, katalog).validity_group == Seq::<char>::empty(),
{
    lemma_ohne_tabelle_unklassifiziert(katalog, p.code);
}

/// Where each procedure of a group is performed after the end of the validity
/// of every other procedure of the group that is not performed later, all
/// validities stay as they are; well-formed records stay as they are
/// altogether, in the order of their procedures.
pub proof fn gesetz_ohne_ueberschneidung_unveraendert(gruppe: Seq<GueltigkeitSicht>)
    requires
        forall|i: int, j: int|
            0 <= i < gruppe.len() && 0 <= j < gruppe.len() && i != j && zeit_von(gruppe[i])
                <= zeit_von(gruppe[j]) ==> fenster_ende(#[trigger] gruppe[i]) < zeit_von(
                #[trigger] gruppe[j],
            ),
    ensures
        forall|i: int|
            0 <= i < gruppe.len() ==> (#[trigger] angepasst(gruppe)[i]).validity == sortiert(
                gruppe,
            )[i].validity,
        (forall|i: int| 0 <= i < gruppe.len() ==> wohlgeformt(#[trigger] gruppe[i])) ==> angepasst(
            gruppe,
        ) == sortiert(gruppe),
{
    let z = zeiten_von(gruppe);
    let r = reihenfolge(z);
    let s = sortiert(gruppe);
    lemma_reihenfolge(z);
    assert forall|i: int| 0 <= i < gruppe.len() implies (#[trigger] angepasst(gruppe)[i]).validity
        == s[i].validity by {
        assert(s[i] == gruppe[r[i]]);
        if i + 1 < gruppe.len() {
            assert(s[i + 1] == gruppe[r[i + 1]]);
            assert(kommt_vor(z, r[i], r[i + 1]));
            assert(fenster_ende(gruppe[r[i]]) < zeit_von(gruppe[r[i + 1]]));
            if luecke_tage(s[i], s[i + 1]) <= 0 {
                lemma_gekuerztes_ende(zeit_von(s[i]), s[i].validity, zeit_von(s[i + 1]));
            }
        }
    }
    if forall|i: int| 0 <= i < gruppe.len() ==> wohlgeformt(#[trigger] gruppe[i]) {
        assert forall|i: int| 0 <= i < gruppe.len() implies angepasst(gruppe)[i] == s[i] by {
            assert(s[i] == gruppe[r[i]]);
            assert(wohlgeformt(gruppe[r[i]]));
            assert(angepasst(gruppe)[i].validity == s[i].validity);
            assert(angepasst(gruppe)[i] == mit_gueltigkeit(s[i], s[i].validity));
        }
        assert(angepasst(gruppe) =~= s);
    }
}

/// A group of one record keeps the validity of that record, and a well-formed
/// record passes unchanged.
pub proof fn gesetz_einzelner_eintrag(p: GueltigkeitSicht)
    ensures
        angepasst(seq![p]) == seq![mit_gueltigkeit(p, p.validity)],
        wohlgeformt(p) ==> angepasst(seq![p]) == seq![p],
{
    let gruppe = seq![p];
    let z = zeiten_von(gruppe);
    assert(reihenfolge_bis(z, 0) =~= Seq::<int>::empty());
    assert(platz(z, Seq::<int>::empty(), 0) == 0);
    assert(reihenfolge_bis(z, 1) =~= seq![0int]);
    assert(sortiert(gruppe) =~= gruppe);
    assert(angepasst_an(gruppe, 0) == mit_gueltigkeit(p, p.validity));
    assert(angepasst(gruppe) =~= seq![mit_gueltigkeit(p, p.validity)]);
}

/// A group without records stays without records.
pub proof fn gesetz_leere_gruppe()
    ensures
        angepasst(Seq::<GueltigkeitSicht>::empty()) == Seq::<GueltigkeitSicht>::empty(),
{
    let leer = Seq::<GueltigkeitSicht>::empty();
    assert(reihenfolge_bis(zeiten_von(leer), 0) =~= Seq::<int>::empty());
    assert(angepasst(leer) =~= leer);
}

/// The corrected records of a list of groups, as a collection without order.
pub open spec fn korrigierte_menge(gruppen: Seq<Seq<GueltigkeitSicht>>) -> Multiset<
    GueltigkeitSicht,
>
    decreases gruppen.len(),
{
    if gruppen.len() == 0 {
        Multiset::empty()
    } else {
        korrigierte_menge(gruppen.drop_last()).add(angepasst(gruppen.last()).to_multiset())
    }
}

/// The corrected records of the groups, one group after the other, are the
/// corrected records of each group taken together.
pub proof fn lemma_korrigierte_menge(gruppen: Seq<Seq<GueltigkeitSicht>>)
    ensures
        alle_angepasst(gruppen).flatten().to_multiset() == korrigierte_menge(gruppen),
    decreases gruppen.len(),
{
    if gruppen.len() == 0 {
        assert(alle_angepasst(gruppen).flatten() =~= Seq::<GueltigkeitSicht>::empty());
        assert(Seq::<GueltigkeitSicht>::empty().to_multiset() =~= Multiset::empty()) by {
            to_multiset_len(Seq::<GueltigkeitSicht>::empty());
        }
    } else {
        let davor = gruppen.drop_last();
        let letzte = angepasst(gruppen.last());
        lemma_korrigierte_menge(davor);
        assert(alle_angepasst(gruppen) =~= alle_angepasst(davor).push(letzte));
        alle_angepasst(davor).lemma_flatten_push(letzte);
        lemma_multiset_commutative(alle_angepasst(davor).flatten(), letzte);
        assert(alle_angepasst(gruppen).flatten().to_multiset() =~= korrigierte_menge(gruppen));
    }
}

/// Taking one group out of the list takes its corrected records out of the
/// collection.
pub proof fn lemma_korrigierte_menge_ohne(gruppen: Seq<Seq<GueltigkeitSicht>>, j: int)
    requires
        0 <= j < gruppen.len(),
    ensures
        korrigierte_menge(gruppen) == korrigierte_menge(gruppen.remove(j)).add(
            angepasst(gruppen[j]).to_multiset(),
        ),
    decreases gruppen.len(),
{
    if j == gruppen.len() - 1 {
        assert(gruppen.remove(j) =~= gruppen.drop_last());
    } else {
        let davor = gruppen.drop_last();
        lemma_korrigierte_menge_ohne(davor, j);
        assert(davor.remove(j) =~= gruppen.remove(j).drop_last());
        assert(gruppen.remove(j).last() == gruppen.last());
        assert(korrigierte_menge(gruppen) =~= korrigierte_menge(gruppen.remove(j)).add(
            angepasst(gruppen[j]).to_multiset(),
        ));
    }
}

/// The order in which the groups are worked on does not matter: two lists of
/// the same groups give the same corrected records.
pub proof fn gesetz_reihenfolge_der_gruppen(
    gruppen1: Seq<Seq<GueltigkeitSicht>>,
    gruppen2: Seq<Seq<GueltigkeitSicht>>,
)
    requires
        gruppen1.to_multiset() == gruppen2.to_multiset(),
    ensures
        alle_angepasst(gruppen1).flatten().to_multiset() == alle_angepasst(
            gruppen2,
        ).flatten().to_multiset(),
    decreases gruppen1.len(),
{
    lemma_korrigierte_menge(gruppen1);
    lemma_korrigierte_menge(gruppen2);
    to_multiset_len(gruppen1);
    to_multiset_len(gruppen2);
    if gruppen1.len() > 0 {
        let davor = gruppen1.drop_last();
        let x = gruppen1.last();
        assert(gruppen1 =~= davor.push(x));
        to_multiset_build(davor, x);
        to_multiset_contains(gruppen2, x);
        assert(gruppen2.contains(x));
        let j = choose|j: int| 0 <= j < gruppen2.len() && gruppen2[j] == x;
        to_multiset_remove(gruppen2, j);
        assert(davor.to_multiset() =~= gruppen2.remove(j).to_multiset());
        gesetz_reihenfolge_der_gruppen(davor, gruppen2.remove(j));
        lemma_korrigierte_menge(davor);
        lemma_korrigierte_menge(gruppen2.remove(j));
        lemma_korrigierte_menge_ohne(gruppen2, j);
    }
}

} // verus!
