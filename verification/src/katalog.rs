//! The classification of procedure codes: tables of codes, each with the
//! number of days that a procedure of the table stays valid.
use vstd::prelude::*;

verus! {

#[verifier::external_type_specification]
#[verifier::external_body]
#[verifier::reject_recursive_types(T)]
pub struct ExPhfSet<T: 'static>(phf::Set<T>);

/// The codes that a lookup in a set of codes finds.
pub uninterp spec fn phf_inhalt(menge: phf::Set<&'static str>) -> Set<Seq<char>>;

/// The number of entries that a set of codes is made of.
pub uninterp spec fn phf_anzahl(menge: phf::Set<&'static str>) -> nat;

/// `phf::Set::is_empty`: whether the set is made of no entries. A lookup finds
/// a code only among the entries, so it finds none in such a set.
#[verifier::external_body]
fn phf_leer(menge: &phf::Set<&'static str>) -> (r: bool)
    ensures
        r == (phf_anzahl(*menge) == 0),
        r ==> phf_inhalt(*menge) == Set::<Seq<char>>::empty(),
{
    menge.is_empty()
}

/// `phf::Set::contains`: whether a lookup in the set finds a string equal to
/// `code`. The lookup takes a remainder by the number of entries, so the set
/// must have one entry at least.
#[verifier::external_body]
fn phf_enthaelt(menge: &phf::Set<&'static str>, code: &str) -> (r: bool)
    requires
        phf_anzahl(*menge) > 0,
    ensures
        r == phf_inhalt(*menge).contains(code@),
{
    menge.contains(code)
}

/// Whether a lookup in the set finds `code`; in a set without entries it
/// finds nothing.
fn menge_enthaelt(menge: &phf::Set<&'static str>, code: &str) -> (r: bool)
    ensures
        r == phf_inhalt(*menge).contains(code@),
{
    if phf_leer(menge) {
        false
    } else {
        phf_enthaelt(menge, code)
    }
}

/// A table of codes that a score is read from.
pub struct Table<'a> {
    pub TYPE: &'a str,
    pub CONTENT: phf::Set<&'static str>,
}

pub ghost struct TableSicht {
    pub typ: Seq<char>,
    pub content: Set<Seq<char>>,
}

impl<'a> View for Table<'a> {
    type V = TableSicht;

    open spec fn view(&self) -> TableSicht {
        TableSicht { typ: self.TYPE@, content: phf_inhalt(self.CONTENT) }
    }
}

impl<'a> Table<'a> {
    /// Whether `code` is a code of this table.
    pub fn enthaelt(&self, code: &str) -> (r: bool)
        ensures
            r == self@.content.contains(code@),
    {
        menge_enthaelt(&self.CONTENT, code)
    }
}

/// A table of codes with the validity that a procedure of the table gets, and
/// the set in which validities may not overlap.
pub struct GtTable {
    pub Validity: i32,
    pub ValiditySet: String,
    pub TreatmentType: String,
    pub ValidityGroup: String,
    pub CONTENT: phf::Set<&'static str>,
}

pub ghost struct GtTableSicht {
    pub validity: int,
    pub validity_set: Seq<char>,
    pub treatment_type: Seq<char>,
    pub validity_group: Seq<char>,
    pub content: Set<Seq<char>>,
}

impl View for GtTable {
    type V = GtTableSicht;

    open spec fn view(&self) -> GtTableSicht {
        GtTableSicht {
            validity: self.Validity as int,
            validity_set: self.ValiditySet@,
            treatment_type: self.TreatmentType@,
            validity_group: self.ValidityGroup@,
            content: phf_inhalt(self.CONTENT),
        }
    }
}

impl GtTable {
    /// Whether `code` is a code of this table.
    pub fn enthaelt(&self, code: &str) -> (r: bool)
        ensures
            r == self@.content.contains(code@),
    {
        menge_enthaelt(&self.CONTENT, code)
    }
}

/// The tables of a catalog as values, in the catalog's order.
pub open spec fn katalog_sicht(katalog: Seq<GtTable>) -> Seq<GtTableSicht> {
    katalog.map_values(|t: GtTable| t@)
}

/// What the catalog says of one code.
pub ghost struct Klassifikation {
    pub validity: int,
    pub validity_set: Seq<char>,
    pub treatment_type: Seq<char>,
    pub validity_group: Seq<char>,
}

/// What holds of a code that no table has: valid for one day, in no set.
pub open spec fn unklassifiziert() -> Klassifikation {
    Klassifikation {
        validity: 1,
        validity_set: Seq::empty(),
        treatment_type: Seq::empty(),
        validity_group: Seq::empty(),
    }
}

/// The first table from place `ab` on that has `code`.
pub open spec fn treffer_ab(katalog: Seq<GtTableSicht>, code: Seq<char>, ab: int) -> Option<int>
    decreases katalog.len() - ab,
{
    if ab < 0 || ab >= katalog.len() {
        None
    } else if katalog[ab].content.contains(code) {
        Some(ab)
    } else {
        treffer_ab(katalog, code, ab + 1)
    }
}

/// The place of the first table of the catalog that has `code`.
pub open spec fn erster_treffer(katalog: Seq<GtTableSicht>, code: Seq<char>) -> Option<int> {
    treffer_ab(katalog, code, 0)
}

/// What the catalog says of `code`: what its first table with that code says,
/// or that the code is unclassified.
pub open spec fn klassifikation(katalog: Seq<GtTableSicht>, code: Seq<char>) -> Klassifikation {
    match erster_treffer(katalog, code) {
        Some(i) => Klassifikation {
            validity: katalog[i].validity,
            validity_set: katalog[i].validity_set,
            treatment_type: katalog[i].treatment_type,
            validity_group: katalog[i].validity_group,
        },
        None => unklassifiziert(),
    }
}

/// From place `ab` on, the search finds the first table that has the code,
/// and finds nothing only where no table from there on has it.
pub proof fn lemma_treffer_ab(katalog: Seq<GtTableSicht>, code: Seq<char>, ab: int)
    requires
        0 <= ab <= katalog.len(),
    ensures
        match treffer_ab(katalog, code, ab) {
            Some(i) => ab <= i < katalog.len() && katalog[i].content.contains(code) && forall|j: int|
                ab <= j < i ==> !(#[trigger] katalog[j]).content.contains(code),
            None => forall|j: int|
                ab <= j < katalog.len() ==> !(#[trigger] katalog[j]).content.contains(code),
        },
    decreases katalog.len() - ab,
{
    if ab < katalog.len() && !katalog[ab].content.contains(code) {
        lemma_treffer_ab(katalog, code, ab + 1);
    }
}

/// The first table wins: the search gives the place of a table that has the
/// code and that no table with the code precedes.
pub proof fn lemma_erster_treffer(katalog: Seq<GtTableSicht>, code: Seq<char>, i: int)
    ensures
        erster_treffer(katalog, code) == Some(i) <==> (0 <= i < katalog.len()
            && katalog[i].content.contains(code) && forall|j: int|
            0 <= j < i ==> !(#[trigger] katalog[j]).content.contains(code)),
{
    lemma_treffer_ab(katalog, code, 0);
}

/// A code that no table has is unclassified: it is valid for one day and
/// belongs to the set with the empty name.
pub proof fn lemma_ohne_tabelle_unklassifiziert(katalog: Seq<GtTableSicht>, code: Seq<char>)
    requires
        forall|j: int| 0 <= j < katalog.len() ==> !(#[trigger] katalog[j]).content.contains(code),
    ensures
        klassifikation(katalog, code) == unklassifiziert(),
        klassifikation(katalog, code).validity == 1,
        klassifikation(katalog, code).validity_set == Seq::<char>::empty(),
{
    lemma_treffer_ab(katalog, code, 0);
}

/// The place of the first table of the catalog that has `code`, if any has.
pub fn finde_tabelle(gt_tables: &Vec<GtTable>, code: &str) -> (r: Option<usize>)
    ensures
        match r {
            Some(i) => i < gt_tables@.len() && erster_treffer(katalog_sicht(gt_tables@), code@)
                == Some(i as int),
            None => erster_treffer(katalog_sicht(gt_tables@), code@) is None,
        },
{
    let ghost katalog = katalog_sicht(gt_tables@);
    let mut i: usize = 0;
    while i < gt_tables.len()
        invariant
            0 <= i <= gt_tables.len(),
            katalog == katalog_sicht(gt_tables@),
            erster_treffer(katalog, code@) == treffer_ab(katalog, code@, i as int),
        decreases gt_tables.len() - i,
    {
        if gt_tables[i].enthaelt(code) {
            return Some(i);
        }
        i = i + 1;
    }
    None
}

} // verus!
