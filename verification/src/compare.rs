//! Comparing what was read with what the plugin holds: tables as maps, name
//! lists as sets, per-tab states by their fingerprints.
use vstd::prelude::*;
use vstd::string::StringExecFns;
use crate::config::names_of;
use crate::model::Estado;
use crate::panel::names_contain;
use crate::poll::{prio_pairs, str_map};
use crate::table::{str_eq, table_find, table_get};

verus! {

// ------------------------------------------------------------ string tables

/// A key that the table looks up.
proof fn lemma_get_some<V>(t: Seq<(String, V)>, k: Seq<char>)
    requires
        table_get(t, k) is Some,
    ensures
        exists|i: int| 0 <= i < t.len() && (#[trigger] t[i]).0@ == k,
    decreases t.len(),
{
    if t[0].0@ != k {
        lemma_get_some(t.drop_first(), k);
        let i = choose|i: int| 0 <= i < t.drop_first().len() && (#[trigger] t.drop_first()[i]).0@ == k;
        assert(t[i + 1] == t.drop_first()[i]);
    }
}

/// Whether two string tables look `k` up alike.
pub open spec fn same_at(a: Seq<(String, String)>, b: Seq<(String, String)>, k: Seq<char>) -> bool {
    match (table_get(a, k), table_get(b, k)) {
        (Some(x), Some(y)) => x@ == y@,
        (None, None) => true,
        _ => false,
    }
}

proof fn lemma_same_maps(a: Seq<(String, String)>, b: Seq<(String, String)>)
    ensures
        (forall|k: Seq<char>| #[trigger] same_at(a, b, k)) <==> str_map(a) == str_map(b),
{
    if forall|k: Seq<char>| #[trigger] same_at(a, b, k) {
        assert forall|k: Seq<char>| #[trigger] str_map(a).dom().contains(k) == str_map(
            b,
        ).dom().contains(k) by {
            assert(same_at(a, b, k));
        }
        assert forall|k: Seq<char>| str_map(a).dom().contains(k) implies #[trigger] str_map(a)[k]
            == str_map(b)[k] by {
            assert(same_at(a, b, k));
        }
        assert(str_map(a) =~= str_map(b));
    }
    if str_map(a) == str_map(b) {
        assert forall|k: Seq<char>| #[trigger] same_at(a, b, k) by {
            assert(str_map(a).dom().contains(k) == str_map(b).dom().contains(k));
            if table_get(a, k) is Some {
                assert(str_map(a)[k] == str_map(b)[k]);
            }
        }
    }
}

fn same_for_keys_of(a: &Vec<(String, String)>, b: &Vec<(String, String)>) -> (r: bool)
    ensures
        r ==> forall|i: int| 0 <= i < a@.len() ==> same_at(a@, b@, #[trigger] a@[i].0@),
        !r ==> exists|k: Seq<char>| !same_at(a@, b@, k),
{
    let mut i: usize = 0;
    while i < a.len()
        invariant
            i <= a@.len(),
            forall|j: int| 0 <= j < i ==> same_at(a@, b@, #[trigger] a@[j].0@),
        decreases a@.len() - i,
    {
        let key = a[i].0.as_str();
        let same = match (table_find(a, key), table_find(b, key)) {
            (Some(x), Some(y)) => str_eq(x.as_str(), y.as_str()),
            (None, None) => true,
            _ => false,
        };
        if !same {
            assert(!same_at(a@, b@, a@[i as int].0@));
            return false;
        }
        i = i + 1;
    }
    true
}

/// Whether two string tables stand for the same map.
pub fn same_str_table(a: &Vec<(String, String)>, b: &Vec<(String, String)>) -> (r: bool)
    ensures
        r == (str_map(a@) == str_map(b@)),
{
    proof {
        lemma_same_maps(a@, b@);
    }
    if !same_for_keys_of(a, b) {
        return false;
    }
    if !same_for_keys_of(b, a) {
        assert(exists|k: Seq<char>| !same_at(b@, a@, k));
        let ghost k = choose|k: Seq<char>| !same_at(b@, a@, k);
        assert(!same_at(a@, b@, k));
        return false;
    }
    assert forall|k: Seq<char>| #[trigger] same_at(a@, b@, k) by {
        if table_get(a@, k) is Some {
            lemma_get_some(a@, k);
            let i = choose|i: int| 0 <= i < a@.len() && (#[trigger] a@[i]).0@ == k;
            assert(same_at(a@, b@, a@[i].0@));
        } else if table_get(b@, k) is Some {
            lemma_get_some(b@, k);
            let i = choose|i: int| 0 <= i < b@.len() && (#[trigger] b@[i]).0@ == k;
            assert(same_at(b@, a@, b@[i].0@));
        }
    }
    true
}

// ------------------------------------------------------------ priority tables

/// The value of the first pair whose name is `k`.
pub open spec fn pair_get(p: Seq<(Seq<char>, u8)>, k: Seq<char>) -> Option<u8>
    decreases p.len(),
{
    if p.len() == 0 {
        None
    } else if p[0].0 == k {
        Some(p[0].1)
    } else {
        pair_get(p.drop_first(), k)
    }
}

/// The map that a list of (name, priority) pairs stands for (the first pair
/// with a name counts).
pub open spec fn prio_map(p: Seq<(Seq<char>, u8)>) -> Map<Seq<char>, u8> {
    Map::new(|k: Seq<char>| pair_get(p, k) is Some, |k: Seq<char>| pair_get(p, k)->0)
}

proof fn lemma_pair_get(t: Seq<(String, u8)>, k: Seq<char>)
    ensures
        table_get(t, k) == pair_get(prio_pairs(t), k),
    decreases t.len(),
{
    if t.len() > 0 {
        assert(prio_pairs(t).drop_first() =~= prio_pairs(t.drop_first()));
        lemma_pair_get(t.drop_first(), k);
    }
}

fn same_prio_for_keys_of(a: &Vec<(String, u8)>, b: &Vec<(String, u8)>) -> (r: bool)
    ensures
        r ==> forall|i: int|
            0 <= i < a@.len() ==> table_get(a@, #[trigger] a@[i].0@) == table_get(b@, a@[i].0@),
        !r ==> exists|k: Seq<char>| table_get(a@, k) != table_get(b@, k),
{
    let mut i: usize = 0;
    while i < a.len()
        invariant
            i <= a@.len(),
            forall|j: int|
                0 <= j < i ==> table_get(a@, #[trigger] a@[j].0@) == table_get(b@, a@[j].0@),
        decreases a@.len() - i,
    {
        let key = a[i].0.as_str();
        let same = match (table_find(a, key), table_find(b, key)) {
            (Some(x), Some(y)) => *x == *y,
            (None, None) => true,
            _ => false,
        };
        if !same {
            assert(table_get(a@, a@[i as int].0@) != table_get(b@, a@[i as int].0@));
            return false;
        }
        i = i + 1;
    }
    true
}

/// Whether two priority tables stand for the same map.
pub fn same_prio_table(a: &Vec<(String, u8)>, b: &Vec<(String, u8)>) -> (r: bool)
    ensures
        r == (prio_map(prio_pairs(a@)) == prio_map(prio_pairs(b@))),
{
    assert forall|k: Seq<char>| #[trigger] pair_get(prio_pairs(a@), k) == table_get(a@, k) && pair_get(prio_pairs(b@), k) == table_get(b@, k) by {
        lemma_pair_get(a@, k);
        lemma_pair_get(b@, k);
    }
    if !same_prio_for_keys_of(a, b) {
        let ghost k = choose|k: Seq<char>| table_get(a@, k) != table_get(b@, k);
        assert(prio_map(prio_pairs(a@)).dom().contains(k) != prio_map(prio_pairs(b@)).dom().contains(k) || prio_map(prio_pairs(a@))[k] != prio_map(prio_pairs(b@))[k]);
        return false;
    }
    if !same_prio_for_keys_of(b, a) {
        let ghost k = choose|k: Seq<char>| table_get(b@, k) != table_get(a@, k);
        assert(prio_map(prio_pairs(a@)).dom().contains(k) != prio_map(prio_pairs(b@)).dom().contains(k) || prio_map(prio_pairs(a@))[k] != prio_map(prio_pairs(b@))[k]);
        return false;
    }
    assert forall|k: Seq<char>| table_get(a@, k) == table_get(b@, k) by {
        if table_get(a@, k) is Some {
            lemma_get_some(a@, k);
            let i = choose|i: int| 0 <= i < a@.len() && (#[trigger] a@[i]).0@ == k;
            assert(table_get(a@, a@[i].0@) == table_get(b@, a@[i].0@));
        } else if table_get(b@, k) is Some {
            lemma_get_some(b@, k);
            let i = choose|i: int| 0 <= i < b@.len() && (#[trigger] b@[i]).0@ == k;
            assert(table_get(b@, b@[i].0@) == table_get(a@, b@[i].0@));
        }
    }
    assert(prio_map(prio_pairs(a@)) =~= prio_map(prio_pairs(b@)));
    true
}

// ------------------------------------------------------------ name sets

/// `s` without repeated names (the first of each stays).
pub open spec fn uniq(s: Seq<Seq<char>>) -> Seq<Seq<char>>
    decreases s.len(),
{
    if s.len() == 0 {
        s
    } else {
        let u = uniq(s.drop_last());
        if u.contains(s.last()) {
            u
        } else {
            u.push(s.last())
        }
    }
}

proof fn lemma_uniq_set(s: Seq<Seq<char>>)
    ensures
        uniq(s).to_set() == s.to_set(),
    decreases s.len(),
{
    if s.len() > 0 {
        lemma_uniq_set(s.drop_last());
        assert(s.to_set() =~= s.drop_last().to_set().insert(s.last())) by {
            assert forall|x: Seq<char>| s.contains(x) implies s.drop_last().contains(x) || x == s.last() by {
                let i = choose|i: int| 0 <= i < s.len() && s[i] == x;
                if i < s.len() - 1 {
                    assert(s.drop_last()[i] == x);
                }
            }
            assert forall|x: Seq<char>| s.drop_last().contains(x) implies s.contains(x) by {
                let i = choose|i: int| 0 <= i < s.drop_last().len() && s.drop_last()[i] == x;
                assert(s[i] == x);
            }
        }
        let u = uniq(s.drop_last());
        if !u.contains(s.last()) {
            assert(u.push(s.last()).to_set() =~= u.to_set().insert(s.last())) by {
                assert forall|x: Seq<char>| u.push(s.last()).contains(x) implies u.contains(x) || x == s.last() by {
                    let i = choose|i: int| 0 <= i < u.push(s.last()).len() && u.push(s.last())[i] == x;
                    if i < u.len() {
                        assert(u[i] == x);
                    }
                }
                assert forall|x: Seq<char>| u.contains(x) implies u.push(s.last()).contains(x) by {
                    let i = choose|i: int| 0 <= i < u.len() && u[i] == x;
                    assert(u.push(s.last())[i] == x);
                }
                assert(u.push(s.last())[u.len() as int] == s.last());
            }
        } else {
            assert(u.to_set().contains(s.last()));
            assert(u.to_set().insert(s.last()) =~= u.to_set());
        }
    }
}

/// `v` without repeated names (the first of each stays).
pub fn dedup_names(v: Vec<String>) -> (r: Vec<String>)
    ensures
        names_of(r@) == uniq(names_of(v@)),
{
    let ghost orig = names_of(v@);
    let mut src = v;
    let mut out: Vec<String> = Vec::new();
    let ghost mut i: int = 0;
    assert(orig.take(0) =~= Seq::<Seq<char>>::empty());
    while src.len() > 0
        invariant
            0 <= i <= orig.len(),
            names_of(src@) == orig.skip(i),
            names_of(out@) == uniq(orig.take(i)),
        decreases src@.len(),
    {
        let ghost before = src@;
        assert(names_of(before).len() == before.len());
        assert(i < orig.len());
        let s = src.remove(0);
        assert(names_of(before)[0] == s@);
        assert(orig.take(i + 1).drop_last() =~= orig.take(i));
        assert(orig.take(i + 1).last() == s@);
        assert(names_of(src@) =~= orig.skip(i + 1)) by {
            assert(names_of(src@) =~= names_of(before).drop_first());
        }
        let ghost outv = out@;
        if !names_contain(&out, s.as_str()) {
            out.push(s);
            assert(names_of(out@) =~= names_of(outv).push(s@));
        }
        proof {
            i = i + 1;
        }
    }
    assert(orig.take(i) =~= orig);
    out
}

/// Whether every name of `a` is in `b`.
fn names_within(a: &Vec<String>, b: &Vec<String>) -> (r: bool)
    ensures
        r == (forall|x: Seq<char>| names_of(a@).contains(x) ==> names_of(b@).contains(x)),
{
    let mut i: usize = 0;
    while i < a.len()
        invariant
            i <= a@.len(),
            forall|j: int| 0 <= j < i ==> names_of(b@).contains(#[trigger] names_of(a@)[j]),
        decreases a@.len() - i,
    {
        if !names_contain(b, a[i].as_str()) {
            assert(names_of(a@).contains(names_of(a@)[i as int]));
            return false;
        }
        i = i + 1;
    }
    assert forall|x: Seq<char>| names_of(a@).contains(x) implies names_of(b@).contains(x) by {
        let j = choose|j: int| 0 <= j < names_of(a@).len() && names_of(a@)[j] == x;
    }
    true
}

/// Whether two name lists hold the same names.
pub fn same_names(a: &Vec<String>, b: &Vec<String>) -> (r: bool)
    ensures
        r == (names_of(a@).to_set() == names_of(b@).to_set()),
{
    let ab = names_within(a, b);
    let ba = names_within(b, a);
    if ab && ba {
        assert(names_of(a@).to_set() =~= names_of(b@).to_set());
    } else if !ab {
        let ghost x = choose|x: Seq<char>| names_of(a@).contains(x) && !names_of(b@).contains(x);
        assert(names_of(a@).to_set().contains(x));
    } else {
        let ghost x = choose|x: Seq<char>| names_of(b@).contains(x) && !names_of(a@).contains(x);
        assert(names_of(b@).to_set().contains(x));
    }
    ab && ba
}

/// A name list and its list without repetitions hold the same names.
pub proof fn lemma_dedup_same_set(s: Seq<Seq<char>>)
    ensures
        uniq(s).to_set() == s.to_set(),
{
    lemma_uniq_set(s);
}

// ------------------------------------------------------------ attention entries

/// The attention entries that are set (non-empty), in order.
pub open spec fn set_entries(m: Seq<(String, String)>) -> Seq<(String, String)>
    decreases m.len(),
{
    if m.len() == 0 {
        m
    } else {
        let r = set_entries(m.drop_last());
        if m.last().1@.len() > 0 {
            r.push(m.last())
        } else {
            r
        }
    }
}

/// The attention entries of `m` that are set.
pub fn keep_set_entries(m: Vec<(String, String)>) -> (r: Vec<(String, String)>)
    ensures
        r@ == set_entries(m@),
{
    let ghost orig = m@;
    let mut src = m;
    let mut out: Vec<(String, String)> = Vec::new();
    let ghost mut i: int = 0;
    assert(orig.take(0) =~= Seq::<(String, String)>::empty());
    while src.len() > 0
        invariant
            0 <= i <= orig.len(),
            src@ == orig.skip(i),
            out@ == set_entries(orig.take(i)),
        decreases src@.len(),
    {
        let p = src.remove(0);
        assert(orig.take(i + 1).drop_last() =~= orig.take(i));
        assert(orig.take(i + 1).last() == p);
        assert(orig.skip(i).drop_first() =~= orig.skip(i + 1));
        if !p.1.as_str().is_empty() {
            out.push(p);
        }
        proof {
            i = i + 1;
        }
    }
    assert(orig.take(i) =~= orig);
    out
}

// ------------------------------------------------------------ state fingerprints

/// Strings joined with `'|'` between them.
pub open spec fn joined(ps: Seq<Seq<char>>) -> Seq<char>
    decreases ps.len(),
{
    if ps.len() == 0 {
        Seq::empty()
    } else if ps.len() == 1 {
        ps[0]
    } else {
        joined(ps.drop_last()) + "|"@ + ps.last()
    }
}

/// The fingerprint of a tab's state: "name|estado|pending1|pending2|…".
pub open spec fn entry_print(p: (String, Estado)) -> Seq<char> {
    p.0@ + "|"@ + p.1.estado@ + "|"@ + joined(names_of(p.1.pendientes@))
}

/// The fingerprints of the per-tab states, in order.
pub open spec fn fingerprint(e: Seq<(String, Estado)>) -> Seq<Seq<char>> {
    e.map_values(|p: (String, Estado)| entry_print(p))
}

fn push_joined(s: &mut String, ps: &Vec<String>)
    ensures
        final(s)@ == old(s)@ + joined(names_of(ps@)),
{
    proof {
        reveal_strlit("|");
    }
    let mut i: usize = 0;
    assert(names_of(ps@).take(0) =~= Seq::<Seq<char>>::empty());
    assert(s@ =~= old(s)@ + joined(names_of(ps@).take(0)));
    while i < ps.len()
        invariant
            i <= ps@.len(),
            s@ == old(s)@ + joined(names_of(ps@).take(i as int)),
        decreases ps@.len() - i,
    {
        proof {
            reveal_strlit("|");
        }
        let ghost t = names_of(ps@).take(i + 1);
        assert(t.drop_last() =~= names_of(ps@).take(i as int));
        assert(t.last() == ps@[i as int]@);
        assert(t[0] == ps@[0]@);
        if i > 0 {
            s.push('|');
        }
        s.append(ps[i].as_str());
        assert(s@ =~= old(s)@ + joined(t));
        i = i + 1;
    }
    assert(names_of(ps@).take(i as int) =~= names_of(ps@));
}

fn print_of(p: &(String, Estado)) -> (s: String)
    ensures
        s@ == entry_print(*p),
{
    proof {
        reveal_strlit("|");
    }
    let mut s = p.0.clone();
    s.push('|');
    s.append(p.1.estado.as_str());
    s.push('|');
    push_joined(&mut s, &p.1.pendientes);
    assert(s@ =~= entry_print(*p));
    s
}

/// The fingerprints of the per-tab states.
pub fn fingerprint_of(e: &Vec<(String, Estado)>) -> (r: Vec<String>)
    ensures
        names_of(r@) == fingerprint(e@),
{
    let mut r: Vec<String> = Vec::new();
    let mut i: usize = 0;
    while i < e.len()
        invariant
            i <= e@.len(),
            names_of(r@) == fingerprint(e@.take(i as int)),
        decreases e@.len() - i,
    {
        let ghost before = r@;
        let pr = print_of(&e[i]);
        assert(pr@ == entry_print(e@[i as int]));
        r.push(pr);
        assert(names_of(r@) =~= names_of(before).push(pr@));
        assert(fingerprint(e@.take(i + 1)) =~= fingerprint(e@.take(i as int)).push(pr@));
        assert(names_of(r@) =~= fingerprint(e@.take(i + 1)));
        i = i + 1;
    }
    assert(e@.take(i as int) =~= e@);
    r
}

/// Whether two lists of strings are equal.
pub fn same_strings(a: &Vec<String>, b: &Vec<String>) -> (r: bool)
    ensures
        r == (names_of(a@) == names_of(b@)),
{
    if a.len() != b.len() {
        assert(names_of(a@).len() != names_of(b@).len());
        return false;
    }
    let mut i: usize = 0;
    while i < a.len()
        invariant
            i <= a@.len(),
            a@.len() == b@.len(),
            forall|j: int| 0 <= j < i ==> names_of(a@)[j] == names_of(b@)[j],
        decreases a@.len() - i,
    {
        if !str_eq(a[i].as_str(), b[i].as_str()) {
            assert(names_of(a@)[i as int] != names_of(b@)[i as int]);
            return false;
        }
        i = i + 1;
    }
    assert(names_of(a@) =~= names_of(b@));
    true
}

} // verus!
