use gueltigkeit::katalog::{finde_tabelle, GtTable, Table};

fn menge(codes: &[&'static str]) -> phf::Set<&'static str> {
    let zustand = phf_generator::generate_hash(codes);
    let eintraege: Vec<(&'static str, ())> = zustand.map.iter().map(|&i| (codes[i], ())).collect();
    phf::Set {
        map: phf::Map {
            key: zustand.key,
            disps: Box::leak(zustand.disps.into_boxed_slice()),
            entries: Box::leak(eintraege.into_boxed_slice()),
        },
    }
}

fn tabelle(
    validity: i32,
    set: &str,
    treatment: &str,
    group: &str,
    codes: &[&'static str],
) -> GtTable {
    GtTable {
        Validity: validity,
        ValiditySet: set.to_string(),
        TreatmentType: treatment.to_string(),
        ValidityGroup: group.to_string(),
        CONTENT: menge(codes),
    }
}

fn katalog() -> Vec<GtTable> {
    vec![
        tabelle(7, "TE_Codes", "Ohne_TE", "A", &["3-334", "4-443", "4-444"]),
        tabelle(7, "TE_Codes", "Mit_TE", "B", &["3-333"]),
        tabelle(7, "Therapieart", "Blablub", "C", &["3-345", "4-441", "4-449"]),
    ]
}

#[test]
fn gt_table_enthaelt_seine_codes() {
    let t = tabelle(7, "TE_Codes", "Ohne_TE", "A", &["3-334", "4-443", "4-444"]);
    assert!(t.enthaelt("3-334"));
    assert!(t.enthaelt("4-443"));
    assert!(t.enthaelt("4-444"));
    assert!(!t.enthaelt("3-333"));
    assert!(!t.enthaelt(""));
    assert!(!t.enthaelt("3-33"));
    assert!(!t.enthaelt("3-3344"));
}

#[test]
fn table_enthaelt_seine_codes() {
    let t = Table { TYPE: "NOR", CONTENT: menge(&["3-333", "3-335", "3-338"]) };
    assert!(t.enthaelt("3-333"));
    assert!(t.enthaelt("3-338"));
    assert!(!t.enthaelt("3-334"));
    assert_eq!(t.TYPE, "NOR");
}

#[test]
fn leere_tabelle_enthaelt_nichts() {
    let t = Table { TYPE: "NOR", CONTENT: menge(&[]) };
    assert!(!t.enthaelt("3-333"));
    assert!(!t.enthaelt(""));
}

#[test]
fn finde_tabelle_gibt_den_platz() {
    let k = katalog();
    assert_eq!(finde_tabelle(&k, "3-334"), Some(0));
    assert_eq!(finde_tabelle(&k, "3-333"), Some(1));
    assert_eq!(finde_tabelle(&k, "4-441"), Some(2));
    assert_eq!(finde_tabelle(&k, "4-449"), Some(2));
}

#[test]
fn finde_tabelle_ohne_treffer() {
    let k = katalog();
    assert_eq!(finde_tabelle(&k, "9-999"), None);
    assert_eq!(finde_tabelle(&k, ""), None);
    assert_eq!(finde_tabelle(&Vec::new(), "3-333"), None);
}

#[test]
fn die_erste_tabelle_gewinnt() {
    let k = vec![
        tabelle(3, "X", "", "", &["1-111"]),
        tabelle(5, "Y", "", "", &["1-111", "2-222"]),
        tabelle(9, "Z", "", "", &["2-222", "1-111"]),
    ];
    assert_eq!(finde_tabelle(&k, "1-111"), Some(0));
    assert_eq!(finde_tabelle(&k, "2-222"), Some(1));
}

#[test]
fn tabelle_ohne_eintraege_enthaelt_nichts() {
    let ohne = phf::Set { map: phf::Map { key: 0, disps: &[(0, 0)], entries: &[] } };
    let t = Table { TYPE: "NOR", CONTENT: ohne };
    assert!(!t.enthaelt("3-333"));
    assert!(!t.enthaelt(""));
    let ohne = phf::Set { map: phf::Map { key: 7, disps: &[(1, 2), (3, 4)], entries: &[] } };
    let k = vec![
        GtTable {
            Validity: 3,
            ValiditySet: "X".to_string(),
            TreatmentType: String::new(),
            ValidityGroup: String::new(),
            CONTENT: ohne,
        },
        tabelle(5, "Y", "", "", &["1-111"]),
    ];
    assert!(!k[0].enthaelt("1-111"));
    assert_eq!(finde_tabelle(&k, "1-111"), Some(1));
    assert_eq!(finde_tabelle(&k, "2-222"), None);
}

#[test]
fn tabelle_mit_einem_code() {
    let t = tabelle(7, "TE_Codes", "Mit_TE", "B", &["3-333"]);
    assert!(t.enthaelt("3-333"));
    assert!(!t.enthaelt("3-334"));
    assert!(!t.enthaelt(""));
}
