use gueltigkeit::ordnung::ordne;
use gueltigkeit::zeit::Zeitpunkt;

fn zeiten(sekunden: &[i64]) -> Vec<Zeitpunkt> {
    sekunden.iter().map(|&s| Zeitpunkt::new(s, 0).unwrap()).collect()
}

#[test]
fn ordne_ohne_zeiten() {
    assert_eq!(ordne(&Vec::new()), Vec::<usize>::new());
}

#[test]
fn ordne_eine_zeit() {
    assert_eq!(ordne(&zeiten(&[5])), vec![0]);
}

#[test]
fn ordne_nach_der_zeit() {
    assert_eq!(ordne(&zeiten(&[30, 10, 20])), vec![1, 2, 0]);
    assert_eq!(ordne(&zeiten(&[1, 2, 3, 4])), vec![0, 1, 2, 3]);
    assert_eq!(ordne(&zeiten(&[4, 3, 2, 1])), vec![3, 2, 1, 0]);
    assert_eq!(ordne(&zeiten(&[-5, 7, -9, 0])), vec![2, 0, 3, 1]);
}

#[test]
fn ordne_laesst_gleiche_zeiten_in_ihrer_reihenfolge() {
    assert_eq!(ordne(&zeiten(&[7, 7, 7])), vec![0, 1, 2]);
    assert_eq!(ordne(&zeiten(&[9, 3, 9, 3, 1, 9])), vec![4, 1, 3, 0, 2, 5]);
}

#[test]
fn ordne_achtet_auf_nanosekunden() {
    let liste = vec![
        Zeitpunkt::new(10, 2).unwrap(),
        Zeitpunkt::new(10, 1).unwrap(),
        Zeitpunkt::new(9, 999_999_999).unwrap(),
        Zeitpunkt::new(10, 1).unwrap(),
    ];
    assert_eq!(ordne(&liste), vec![2, 1, 3, 0]);
}

#[test]
fn ordne_viele_zeiten_wie_ein_stabiles_sortieren() {
    for laenge in 0..40usize {
        let mut wert: u64 = 12_345 + laenge as u64;
        let mut sekunden = Vec::new();
        for _ in 0..laenge {
            wert = wert.wrapping_mul(6_364_136_223_846_793_005).wrapping_add(1_442_695_040_888_963_407);
            sekunden.push(((wert >> 33) % 7) as i64 - 3);
        }
        let mut erwartet: Vec<usize> = (0..laenge).collect();
        erwartet.sort_by_key(|&i| sekunden[i]);
        assert_eq!(ordne(&zeiten(&sekunden)), erwartet);
    }
}
