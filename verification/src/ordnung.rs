//! The order of a group by the time of the procedures, earliest first, two of
//! the same time in the order in which they stand in the group.
use vstd::prelude::*;
use crate::zeit::Zeitpunkt;

verus! {

/// The values of a list of points in time.
pub open spec fn werte(zeiten: Seq<Zeitpunkt>) -> Seq<int> {
    zeiten.map_values(|t: Zeitpunkt| t@)
}

/// A list of places as integers.
pub open spec fn indizes(plaetze: Seq<usize>) -> Seq<int> {
    plaetze.map_values(|i: usize| i as int)
}

/// Where place `k` goes in `ordnung`, a list of places ordered by their times:
/// behind the last place whose time is not later than that of `k`.
pub open spec fn platz(zeiten: Seq<int>, ordnung: Seq<int>, k: int) -> int
    decreases ordnung.len(),
{
    if ordnung.len() == 0 || zeiten[ordnung.last()] <= zeiten[k] {
        ordnung.len() as int
    } else {
        platz(zeiten, ordnung.drop_last(), k)
    }
}

/// The first `n` places of `zeiten`, ordered by their times; places of the
/// same time stay in their order.
pub open spec fn reihenfolge_bis(zeiten: Seq<int>, n: nat) -> Seq<int>
    decreases n,
{
    if n == 0 {
        Seq::empty()
    } else {
        let davor = reihenfolge_bis(zeiten, (n - 1) as nat);
        davor.insert(platz(zeiten, davor, n - 1), n - 1)
    }
}

/// The places of `zeiten`, ordered by their times; places of the same time
/// stay in their order.
pub open spec fn reihenfolge(zeiten: Seq<int>) -> Seq<int> {
    reihenfolge_bis(zeiten, zeiten.len())
}

/// Place `a` comes before place `b`: its time is earlier, or the same and it
/// stands first.
pub open spec fn kommt_vor(zeiten: Seq<int>, a: int, b: int) -> bool {
    zeiten[a] < zeiten[b] || (zeiten[a] == zeiten[b] && a < b)
}

/// Each place of `ordnung` comes before the places behind it.
pub open spec fn geordnet(zeiten: Seq<int>, ordnung: Seq<int>) -> bool {
    forall|i: int, j: int|
        0 <= i < j < ordnung.len() ==> kommt_vor(zeiten, #[trigger] ordnung[i], #[trigger] ordnung[j])
}

/// The place that `platz` gives lies in the list or at its end, the places
/// from it on have later times than `k`, and, in an ordered list, those before
/// it have none.
pub proof fn lemma_platz(zeiten: Seq<int>, ordnung: Seq<int>, k: int)
    ensures
        0 <= platz(zeiten, ordnung, k) <= ordnung.len(),
        forall|j: int|
            platz(zeiten, ordnung, k) <= j < ordnung.len() ==> zeiten[#[trigger] ordnung[j]]
                > zeiten[k],
        geordnet(zeiten, ordnung) ==> forall|j: int|
            0 <= j < platz(zeiten, ordnung, k) ==> zeiten[#[trigger] ordnung[j]] <= zeiten[k],
    decreases ordnung.len(),
{
    if ordnung.len() == 0 || zeiten[ordnung.last()] <= zeiten[k] {
        if geordnet(zeiten, ordnung) && ordnung.len() > 0 {
            assert forall|j: int| 0 <= j < ordnung.len() implies zeiten[#[trigger] ordnung[j]]
                <= zeiten[k] by {
                if j < ordnung.len() - 1 {
                    assert(kommt_vor(zeiten, ordnung[j], ordnung[ordnung.len() - 1]));
                }
            }
        }
    } else {
        let kurz = ordnung.drop_last();
        lemma_platz(zeiten, kurz, k);
        assert forall|j: int| platz(zeiten, ordnung, k) <= j < ordnung.len() implies zeiten[
            #[trigger] ordnung[j]] > zeiten[k] by {
            if j < kurz.len() {
                assert(ordnung[j] == kurz[j]);
            }
        }
        if geordnet(zeiten, ordnung) {
            assert forall|i: int, j: int| 0 <= i < j < kurz.len() implies kommt_vor(
                zeiten,
                #[trigger] kurz[i],
                #[trigger] kurz[j],
            ) by {
                assert(kurz[i] == ordnung[i] && kurz[j] == ordnung[j]);
            }
            assert forall|j: int| 0 <= j < platz(zeiten, ordnung, k) implies zeiten[
                #[trigger] ordnung[j]] <= zeiten[k] by {
                assert(ordnung[j] == kurz[j]);
            }
        }
    }
}

/// The order of the first `n` places holds each of them once, and each place
/// comes before the places behind it: the order is by time, and places of the
/// same time keep their order.
pub proof fn lemma_reihenfolge_bis(zeiten: Seq<int>, n: nat)
    ensures
        reihenfolge_bis(zeiten, n).len() == n,
        forall|i: int| 0 <= i < n ==> 0 <= #[trigger] reihenfolge_bis(zeiten, n)[i] < n,
        forall|k: int| 0 <= k < n ==> reihenfolge_bis(zeiten, n).contains(k),
        geordnet(zeiten, reihenfolge_bis(zeiten, n)),
    decreases n,
{
    if n > 0 {
        let davor = reihenfolge_bis(zeiten, (n - 1) as nat);
        let p = platz(zeiten, davor, n - 1);
        let danach = reihenfolge_bis(zeiten, n);
        lemma_reihenfolge_bis(zeiten, (n - 1) as nat);
        lemma_platz(zeiten, davor, n - 1);
        assert(danach == davor.insert(p, n - 1));
        assert forall|i: int| 0 <= i < n implies 0 <= #[trigger] danach[i] < n by {
            if i < p {
                assert(danach[i] == davor[i]);
            } else if i > p {
                assert(danach[i] == davor[i - 1]);
            }
        }
        assert forall|k: int| 0 <= k < n implies danach.contains(k) by {
            if k == n - 1 {
                assert(danach[p] == k);
            } else {
                assert(davor.contains(k));
                let i = choose|i: int| 0 <= i < davor.len() && davor[i] == k;
                if i < p {
                    assert(danach[i] == k);
                } else {
                    assert(danach[i + 1] == k);
                }
            }
        }
        assert forall|i: int, j: int| 0 <= i < j < danach.len() implies kommt_vor(
            zeiten,
            #[trigger] danach[i],
            #[trigger] danach[j],
        ) by {
            let a = if i < p { i } else { i - 1 };
            let b = if j < p { j } else { j - 1 };
            if i != p && j != p {
                assert(danach[i] == davor[a] && danach[j] == davor[b]);
                assert(kommt_vor(zeiten, davor[a], davor[b]));
            } else if i == p {
                assert(danach[j] == davor[b]);
                assert(zeiten[davor[b]] > zeiten[n - 1]);
            } else {
                assert(danach[i] == davor[a]);
                assert(zeiten[davor[a]] <= zeiten[n - 1]);
                assert(davor[a] < n - 1);
            }
        }
    }
}

/// The order of a list of times holds each place of the list once, and each
/// place comes before the places behind it.
pub proof fn lemma_reihenfolge(zeiten: Seq<int>)
    ensures
        reihenfolge(zeiten).len() == zeiten.len(),
        forall|i: int| 0 <= i < zeiten.len() ==> 0 <= #[trigger] reihenfolge(zeiten)[i] < zeiten.len(),
        forall|k: int| 0 <= k < zeiten.len() ==> reihenfolge(zeiten).contains(k),
        geordnet(zeiten, reihenfolge(zeiten)),
{
    lemma_reihenfolge_bis(zeiten, zeiten.len());
}

/// Place `a` comes before place `b`, for places as they are held.
pub open spec fn vor(zeiten: Seq<int>, a: usize, b: usize) -> bool {
    kommt_vor(zeiten, a as int, b as int)
}

/// Each place of the list comes before the places behind it.
pub open spec fn plaetze_geordnet(zeiten: Seq<int>, plaetze: Seq<usize>) -> bool {
    forall|i: int, j: int|
        0 <= i < j < plaetze.len() ==> vor(zeiten, #[trigger] plaetze[i], #[trigger] plaetze[j])
}

/// There is one order only: two lists of the same places in which each place
/// comes before the places behind it are the same list.
pub proof fn lemma_ordnung_eindeutig(zeiten: Seq<int>, a: Seq<int>, b: Seq<int>)
    requires
        geordnet(zeiten, a),
        geordnet(zeiten, b),
        a.len() == b.len(),
        forall|i: int| 0 <= i < a.len() ==> b.contains(#[trigger] a[i]),
        forall|i: int| 0 <= i < b.len() ==> a.contains(#[trigger] b[i]),
    ensures
        a == b,
    decreases a.len(),
{
    if a.len() == 0 {
        assert(a =~= b);
    } else {
        let n = a.len() as int;
        assert(b.contains(a[n - 1]));
        let j = choose|j: int| 0 <= j < n && b[j] == a[n - 1];
        assert(a.contains(b[n - 1]));
        let k = choose|k: int| 0 <= k < n && a[k] == b[n - 1];
        if j < n - 1 {
            assert(kommt_vor(zeiten, b[j], b[n - 1]));
            if k < n - 1 {
                assert(kommt_vor(zeiten, a[k], a[n - 1]));
            }
        }
        assert(a[n - 1] == b[n - 1]);
        let kurz_a = a.drop_last();
        let kurz_b = b.drop_last();
        assert forall|i: int| 0 <= i < kurz_a.len() implies kurz_b.contains(
            #[trigger] kurz_a[i],
        ) by {
            assert(kurz_a[i] == a[i]);
            assert(b.contains(a[i]));
            let m = choose|m: int| 0 <= m < n && b[m] == a[i];
            assert(kommt_vor(zeiten, a[i], a[n - 1]));
            assert(m < n - 1);
            assert(kurz_b[m] == a[i]);
        }
        assert forall|i: int| 0 <= i < kurz_b.len() implies kurz_a.contains(
            #[trigger] kurz_b[i],
        ) by {
            assert(kurz_b[i] == b[i]);
            assert(a.contains(b[i]));
            let m = choose|m: int| 0 <= m < n && a[m] == b[i];
            assert(kommt_vor(zeiten, b[i], b[n - 1]));
            assert(m < n - 1);
            assert(kurz_a[m] == b[i]);
        }
        assert forall|i: int, j: int| 0 <= i < j < kurz_a.len() implies kommt_vor(
            zeiten,
            #[trigger] kurz_a[i],
            #[trigger] kurz_a[j],
        ) by {
            assert(kurz_a[i] == a[i] && kurz_a[j] == a[j]);
        }
        assert forall|i: int, j: int| 0 <= i < j < kurz_b.len() implies kommt_vor(
            zeiten,
            #[trigger] kurz_b[i],
            #[trigger] kurz_b[j],
        ) by {
            assert(kurz_b[i] == b[i] && kurz_b[j] == b[j]);
        }
        lemma_ordnung_eindeutig(zeiten, kurz_a, kurz_b);
        assert(a =~= kurz_a.push(a[n - 1]));
        assert(b =~= kurz_b.push(b[n - 1]));
    }
}

/// Two ordered lists of places as one: `links` holds places before `mitte`,
/// `rechts` places from `mitte` on. Of two places of the same time the one of
/// `links` goes first.
fn mische(zeiten: &Vec<Zeitpunkt>, links: &Vec<usize>, rechts: &Vec<usize>, mitte: usize) -> (r:
    Vec<usize>)
    requires
        mitte <= zeiten@.len(),
        forall|i: int| 0 <= i < links@.len() ==> #[trigger] links@[i] < mitte,
        forall|i: int| 0 <= i < rechts@.len() ==> mitte <= #[trigger] rechts@[i] < zeiten@.len(),
        plaetze_geordnet(werte(zeiten@), links@),
        plaetze_geordnet(werte(zeiten@), rechts@),
    ensures
        r@.len() == links@.len() + rechts@.len(),
        forall|i: int| 0 <= i < links@.len() ==> r@.contains(#[trigger] links@[i]),
        forall|i: int| 0 <= i < rechts@.len() ==> r@.contains(#[trigger] rechts@[i]),
        forall|m: int|
            0 <= m < r@.len() ==> links@.contains(#[trigger] r@[m]) || rechts@.contains(r@[m]),
        plaetze_geordnet(werte(zeiten@), r@),
{
    let ghost w = werte(zeiten@);
    let mut out: Vec<usize> = Vec::new();
    let mut i: usize = 0;
    let mut j: usize = 0;
    while i < links.len() || j < rechts.len()
        invariant
            0 <= i <= links@.len(),
            0 <= j <= rechts@.len(),
            w == werte(zeiten@),
            mitte <= zeiten@.len(),
            forall|a: int| 0 <= a < links@.len() ==> #[trigger] links@[a] < mitte,
            forall|b: int|
                0 <= b < rechts@.len() ==> mitte <= #[trigger] rechts@[b] < zeiten@.len(),
            plaetze_geordnet(w, links@),
            plaetze_geordnet(w, rechts@),
            out@.len() == i + j,
            forall|a: int| 0 <= a < i ==> out@.contains(#[trigger] links@[a]),
            forall|b: int| 0 <= b < j ==> out@.contains(#[trigger] rechts@[b]),
            forall|m: int|
                0 <= m < out@.len() ==> links@.contains(#[trigger] out@[m]) || rechts@.contains(
                    out@[m],
                ),
            plaetze_geordnet(w, out@),
            forall|m: int, a: int|
                0 <= m < out@.len() && i <= a < links@.len() ==> vor(
                    w,
                    #[trigger] out@[m],
                    #[trigger] links@[a],
                ),
            forall|m: int, b: int|
                0 <= m < out@.len() && j <= b < rechts@.len() ==> vor(
                    w,
                    #[trigger] out@[m],
                    #[trigger] rechts@[b],
                ),
        decreases links@.len() - i + rechts@.len() - j,
    {
        let ghost alt = out@;
        let von_links: bool = if i == links.len() {
            false
        } else if j == rechts.len() {
            true
        } else {
            let l: usize = links[i];
            let r: usize = rechts[j];
            assert(w[l as int] == zeiten@[l as int]@);
            assert(w[r as int] == zeiten@[r as int]@);
            zeiten[l].nicht_nach(&zeiten[r])
        };
        let x: usize = if von_links {
            links[i]
        } else {
            rechts[j]
        };
        proof {
            assert forall|a: int| (if von_links { i + 1 } else { i as int }) <= a
                < links@.len() implies vor(w, x, #[trigger] links@[a]) by {
                if von_links {
                    assert(vor(w, links@[i as int], links@[a]));
                } else {
                    if a > i {
                        assert(vor(w, links@[i as int], links@[a]));
                    }
                }
            }
            assert forall|b: int| (if von_links { j as int } else { j + 1 }) <= b
                < rechts@.len() implies vor(w, x, #[trigger] rechts@[b]) by {
                if von_links {
                    if b > j {
                        assert(vor(w, rechts@[j as int], rechts@[b]));
                    }
                } else {
                    assert(vor(w, rechts@[j as int], rechts@[b]));
                }
            }
            if von_links {
                assert(links@.contains(x));
            } else {
                assert(rechts@.contains(x));
            }
        }
        out.push(x);
        proof {
            assert(out@[alt.len() as int] == x);
            assert forall|m: int| 0 <= m < alt.len() implies out@[m] == alt[m] by {}
            assert forall|a: int| 0 <= a < (if von_links { i + 1 } else { i as int })
                implies out@.contains(#[trigger] links@[a]) by {
                if a < i {
                    assert(alt.contains(links@[a]));
                    let m = choose|m: int| 0 <= m < alt.len() && alt[m] == links@[a];
                    assert(out@[m] == links@[a]);
                }
            }
            assert forall|b: int| 0 <= b < (if von_links { j as int } else { j + 1 })
                implies out@.contains(#[trigger] rechts@[b]) by {
                if b < j {
                    assert(alt.contains(rechts@[b]));
                    let m = choose|m: int| 0 <= m < alt.len() && alt[m] == rechts@[b];
                    assert(out@[m] == rechts@[b]);
                }
            }
            assert forall|m: int| 0 <= m < out@.len() implies links@.contains(#[trigger] out@[m])
                || rechts@.contains(out@[m]) by {
                if m < alt.len() {
                    assert(out@[m] == alt[m]);
                }
            }
            assert forall|m: int, n: int| 0 <= m < n < out@.len() implies vor(
                w,
                #[trigger] out@[m],
                #[trigger] out@[n],
            ) by {
                assert(out@[m] == alt[m]);
                if n < alt.len() {
                    assert(out@[n] == alt[n]);
                } else {
                    if von_links {
                        assert(vor(w, alt[m], links@[i as int]));
                    } else {
                        assert(vor(w, alt[m], rechts@[j as int]));
                    }
                }
            }
            assert forall|m: int, a: int| 0 <= m < out@.len() && (if von_links {
                i + 1
            } else {
                i as int
            }) <= a < links@.len() implies vor(w, #[trigger] out@[m], #[trigger] links@[a]) by {
                if m < alt.len() {
                    assert(out@[m] == alt[m]);
                    assert(vor(w, alt[m], links@[a]));
                }
            }
            assert forall|m: int, b: int| 0 <= m < out@.len() && (if von_links {
                j as int
            } else {
                j + 1
            }) <= b < rechts@.len() implies vor(w, #[trigger] out@[m], #[trigger] rechts@[b]) by {
                if m < alt.len() {
                    assert(out@[m] == alt[m]);
                    assert(vor(w, alt[m], rechts@[b]));
                }
            }
        }
        if von_links {
            i = i + 1;
        } else {
            j = j + 1;
        }
    }
    out
}

/// The places from `von` up to `bis`, ordered by their times; places of the
/// same time stay in their order.
fn ordne_bereich(zeiten: &Vec<Zeitpunkt>, von: usize, bis: usize) -> (r: Vec<usize>)
    requires
        von <= bis <= zeiten@.len(),
    ensures
        r@.len() == bis - von,
        forall|i: int| 0 <= i < r@.len() ==> von <= #[trigger] r@[i] < bis,
        forall|k: usize| von <= k < bis ==> r@.contains(k),
        plaetze_geordnet(werte(zeiten@), r@),
    decreases bis - von,
{
    let mut r: Vec<usize> = Vec::new();
    if bis - von == 0 {
        return r;
    }
    if bis - von == 1 {
        r.push(von);
        assert(r@[0] == von);
        return r;
    }
    let mitte: usize = von + (bis - von) / 2;
    let links = ordne_bereich(zeiten, von, mitte);
    let rechts = ordne_bereich(zeiten, mitte, bis);
    let r = mische(zeiten, &links, &rechts, mitte);
    proof {
        assert forall|i: int| 0 <= i < r@.len() implies von <= #[trigger] r@[i] < bis by {
            if links@.contains(r@[i]) {
                let m = choose|m: int| 0 <= m < links@.len() && links@[m] == r@[i];
            } else {
                assert(rechts@.contains(r@[i]));
                let m = choose|m: int| 0 <= m < rechts@.len() && rechts@[m] == r@[i];
            }
        }
        assert forall|k: usize| von <= k < bis implies r@.contains(k) by {
            if k < mitte {
                assert(links@.contains(k));
                let m = choose|m: int| 0 <= m < links@.len() && links@[m] == k;
                assert(r@.contains(links@[m]));
            } else {
                assert(rechts@.contains(k));
                let m = choose|m: int| 0 <= m < rechts@.len() && rechts@[m] == k;
                assert(r@.contains(rechts@[m]));
            }
        }
    }
    r
}

/// The places of `zeiten`, ordered by their times, earliest first; places of
/// the same time stay in their order.
pub fn ordne(zeiten: &Vec<Zeitpunkt>) -> (r: Vec<usize>)
    ensures
        indizes(r@) == reihenfolge(werte(zeiten@)),
        r@.len() == zeiten@.len(),
        forall|i: int| 0 <= i < r@.len() ==> #[trigger] r@[i] < zeiten@.len(),
{
    let r = ordne_bereich(zeiten, 0, zeiten.len());
    proof {
        let w = werte(zeiten@);
        let a = indizes(r@);
        let b = reihenfolge(w);
        lemma_reihenfolge(w);
        assert forall|i: int, j: int| 0 <= i < j < a.len() implies kommt_vor(
            w,
            #[trigger] a[i],
            #[trigger] a[j],
        ) by {
            assert(vor(w, r@[i], r@[j]));
        }
        assert forall|i: int| 0 <= i < a.len() implies b.contains(#[trigger] a[i]) by {
            assert(a[i] == r@[i] as int);
        }
        assert forall|i: int| 0 <= i < b.len() implies a.contains(#[trigger] b[i]) by {
            let k = b[i] as usize;
            assert(r@.contains(k));
            let m = choose|m: int| 0 <= m < r@.len() && r@[m] == k;
            assert(a[m] == b[i]);
        }
        lemma_ordnung_eindeutig(w, a, b);
    }
    r
}

} // verus!
