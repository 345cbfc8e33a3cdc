//! Small maps keyed by strings, kept as lists of pairs (the first pair with a
//! key is the one that counts).
use vstd::prelude::*;
use crate::text::{chars_eq, chars_of};

verus! {

/// The value of the first pair whose key is `key`.
pub open spec fn table_get<V>(t: Seq<(String, V)>, key: Seq<char>) -> Option<V>
    decreases t.len(),
{
    if t.len() == 0 {
        None
    } else if t[0].0@ == key {
        Some(t[0].1)
    } else {
        table_get(t.drop_first(), key)
    }
}

/// Whether two strings are equal.
pub fn str_eq(a: &str, b: &str) -> (r: bool)
    ensures
        r == (a@ == b@),
{
    let x = chars_of(a);
    let y = chars_of(b);
    chars_eq(&x, &y)
}

/// Position of the pair that [`table_get`] reads, if any.
pub fn table_position<V>(t: &Vec<(String, V)>, key: &str) -> (r: Option<usize>)
    ensures
        match r {
            Some(i) => i < t@.len() && table_get(t@, key@) == Some(t@[i as int].1) && t@[i as int].0@
                == key@,
            None => table_get(t@, key@) is None,
        },
{
    let mut i: usize = 0;
    assert(t@.skip(0) =~= t@);
    while i < t.len()
        invariant
            i <= t@.len(),
            table_get(t@.skip(i as int), key@) == table_get(t@, key@),
        decreases t@.len() - i,
    {
        assert(t@.skip(i as int).drop_first() =~= t@.skip(i + 1));
        assert(t@.skip(i as int)[0] == t@[i as int]);
        if str_eq(t[i].0.as_str(), key) {
            return Some(i);
        }
        i = i + 1;
    }
    None
}

/// The value stored under `key`, if any.
pub fn table_find<'a, V>(t: &'a Vec<(String, V)>, key: &str) -> (r: Option<&'a V>)
    ensures
        match r {
            Some(v) => table_get(t@, key@) == Some(*v),
            None => table_get(t@, key@) is None,
        },
{
    match table_position(t, key) {
        Some(i) => Some(&t[i].1),
        None => None,
    }
}

proof fn lemma_get_push<V>(t: Seq<(String, V)>, p: (String, V), k: Seq<char>)
    ensures
        table_get(t.push(p), k) == match table_get(t, k) {
            Some(v) => Some(v),
            None => if p.0@ == k {
                Some(p.1)
            } else {
                None
            },
        },
    decreases t.len(),
{
    if t.len() == 0 {
        assert(t.push(p).drop_first() =~= Seq::<(String, V)>::empty());
        assert(t.push(p)[0] == p);
        assert(table_get(Seq::<(String, V)>::empty(), k) is None);
        assert(table_get(t, k) is None);
    } else {
        assert(t.push(p).drop_first() =~= t.drop_first().push(p));
        assert(t.push(p)[0] == t[0]);
        lemma_get_push(t.drop_first(), p, k);
    }
}

/// Removes every pair with key `key`.
pub fn table_remove<V>(t: &mut Vec<(String, V)>, key: &str)
    ensures
        forall|k: Seq<char>| #[trigger]
            table_get(final(t)@, k) == if k == key@ {
                None
            } else {
                table_get(old(t)@, k)
            },
{
    let ghost orig = t@;
    let mut src: Vec<(String, V)> = Vec::new();
    std::mem::swap(&mut src, t);
    let mut out: Vec<(String, V)> = Vec::new();
    let ghost mut i: int = 0;
    assert(orig.take(0) =~= Seq::<(String, V)>::empty());
    while src.len() > 0
        invariant
            0 <= i <= orig.len(),
            src@ == orig.skip(i),
            forall|k: Seq<char>| #[trigger]
                table_get(out@, k) == if k == key@ {
                    None
                } else {
                    table_get(orig.take(i), k)
                },
        decreases src@.len(),
    {
        let p = src.remove(0);
        let ghost before = out@;
        assert(orig.take(i + 1) =~= orig.take(i).push(p));
        assert(orig.skip(i).drop_first() =~= orig.skip(i + 1));
        let keep = !str_eq(p.0.as_str(), key);
        let ghost pg = p;
        if keep {
            out.push(p);
        }
        assert forall|k: Seq<char>| #[trigger]
            table_get(out@, k) == if k == key@ {
                None
            } else {
                table_get(orig.take(i + 1), k)
            } by {
            lemma_get_push(orig.take(i), pg, k);
            if keep {
                lemma_get_push(before, pg, k);
            }
        }
        proof {
            i = i + 1;
        }
    }
    assert(orig.take(i) =~= orig);
    *t = out;
}

/// Stores `v` under `key`, replacing what was stored there.
pub fn table_insert<V>(t: &mut Vec<(String, V)>, key: String, v: V)
    ensures
        forall|k: Seq<char>| #[trigger]
            table_get(final(t)@, k) == if k == key@ {
                Some(v)
            } else {
                table_get(old(t)@, k)
            },
{
    table_remove(t, key.as_str());
    let ghost mid = t@;
    let ghost kk = key@;
    let ghost p = (key, v);
    t.push((key, v));
    assert forall|k: Seq<char>| #[trigger]
        table_get(t@, k) == if k == kk {
            Some(v)
        } else {
            table_get(old(t)@, k)
        } by {
        lemma_get_push(mid, p, k);
    }
}

} // verus!
