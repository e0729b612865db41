//! The lexicographic order on texts, and sequences of labels kept in
//! strictly increasing order.

use vstd::prelude::*;
use vstd::string::StrSliceExecFns;
use crate::text::texts;

verus! {

/// `a` comes before `b` in the lexicographic order by code point: at the
/// first position where the two differ `a` has the smaller character, or `a`
/// is a proper prefix of `b`.
pub open spec fn lex_lt(a: Seq<char>, b: Seq<char>) -> bool
    decreases a.len(),
{
    if b.len() == 0 {
        false
    } else if a.len() == 0 {
        true
    } else if a[0] != b[0] {
        (a[0] as u32) < (b[0] as u32)
    } else {
        lex_lt(a.drop_first(), b.drop_first())
    }
}

/// Each label comes before all the labels after it; such a sequence is
/// sorted and holds no label twice.
pub open spec fn strictly_sorted(labels: Seq<Seq<char>>) -> bool {
    forall|i: int, j: int| 0 <= i < j < labels.len() ==> lex_lt(#[trigger] labels[i], #[trigger] labels[j])
}

/// `labels` lists exactly the members of `members`, each once, in
/// increasing order.
pub open spec fn is_sorted_listing(labels: Seq<Seq<char>>, members: Set<Seq<char>>) -> bool {
    strictly_sorted(labels) && labels.to_set() == members
}

/// The members of a finite set of labels in increasing order.
pub open spec fn sorted_listing(members: Set<Seq<char>>) -> Seq<Seq<char>> {
    choose|labels: Seq<Seq<char>>| is_sorted_listing(labels, members)
}

/// No text comes before itself.
pub proof fn lemma_lex_irreflexive(a: Seq<char>)
    ensures
        !lex_lt(a, a),
    decreases a.len(),
{
    if a.len() > 0 {
        lemma_lex_irreflexive(a.drop_first());
    }
}

/// The order is transitive.
pub proof fn lemma_lex_transitive(a: Seq<char>, b: Seq<char>, c: Seq<char>)
    requires
        lex_lt(a, b),
        lex_lt(b, c),
    ensures
        lex_lt(a, c),
    decreases a.len(),
{
    if a.len() > 0 && a[0] == b[0] && b[0] == c[0] {
        lemma_lex_transitive(a.drop_first(), b.drop_first(), c.drop_first());
    }
}

/// Two different texts are ordered one way or the other.
pub proof fn lemma_lex_total(a: Seq<char>, b: Seq<char>)
    requires
        a != b,
    ensures
        lex_lt(a, b) || lex_lt(b, a),
    decreases a.len(),
{
    if a.len() > 0 && b.len() > 0 && a[0] == b[0] {
        if a.drop_first() == b.drop_first() {
            assert(a =~= seq![a[0]] + a.drop_first());
            assert(b =~= seq![b[0]] + b.drop_first());
        }
        lemma_lex_total(a.drop_first(), b.drop_first());
    } else if a.len() == 0 && b.len() == 0 {
        assert(a =~= b);
    } else if a.len() > 0 && b.len() > 0 {
        vstd::utf8::char_u32_cast(a[0], a[0] as u32);
        vstd::utf8::char_u32_cast(b[0], b[0] as u32);
    }
}

/// No two texts are ordered both ways.
pub proof fn lemma_lex_asymmetric(a: Seq<char>, b: Seq<char>)
    requires
        lex_lt(a, b),
    ensures
        !lex_lt(b, a),
{
    if lex_lt(b, a) {
        lemma_lex_transitive(a, b, a);
        lemma_lex_irreflexive(a);
    }
}

/// A strictly sorted sequence is determined by the set of its members.
pub proof fn lemma_sorted_listing_unique(s1: Seq<Seq<char>>, s2: Seq<Seq<char>>)
    requires
        strictly_sorted(s1),
        strictly_sorted(s2),
        s1.to_set() == s2.to_set(),
    ensures
        s1 == s2,
    decreases s1.len(),
{
    if s1.len() == 0 {
        if s2.len() > 0 {
            assert(s2.contains(s2[0]));
            assert(s2.to_set().contains(s2[0]));
            assert(s1.contains(s2[0]));
        }
        assert(s1 =~= s2);
    } else {
        let m1 = s1.last();
        assert(s1.contains(m1));
        assert(s1.to_set().contains(m1));
        assert(s2.contains(m1));
        let m2 = s2.last();
        assert(s2.contains(m2));
        assert(s2.to_set().contains(m2));
        assert(s1.contains(m2));
        let k2 = choose|k: int| 0 <= k < s2.len() && s2[k] == m1;
        let k1 = choose|k: int| 0 <= k < s1.len() && s1[k] == m2;
        if m1 != m2 {
            assert(lex_lt(s2[k2], m2));
            assert(lex_lt(s1[k1], m1));
            lemma_lex_asymmetric(m1, m2);
        }
        let r1 = s1.drop_last();
        let r2 = s2.drop_last();
        assert forall|t: Seq<char>| r1.to_set().contains(t) <==> r2.to_set().contains(t) by {
            if r1.contains(t) {
                let i = choose|i: int| 0 <= i < r1.len() && r1[i] == t;
                assert(s1[i] == t);
                assert(lex_lt(s1[i], m1));
                assert(s1.contains(t));
                assert(s1.to_set().contains(t));
                assert(s2.contains(t));
                let j = choose|j: int| 0 <= j < s2.len() && s2[j] == t;
                if j == s2.len() - 1 {
                    lemma_lex_irreflexive(t);
                }
                assert(r2[j] == t);
            }
            if r2.contains(t) {
                let i = choose|i: int| 0 <= i < r2.len() && r2[i] == t;
                assert(s2[i] == t);
                assert(lex_lt(s2[i], m2));
                assert(s2.contains(t));
                assert(s2.to_set().contains(t));
                assert(s1.contains(t));
                let j = choose|j: int| 0 <= j < s1.len() && s1[j] == t;
                if j == s1.len() - 1 {
                    lemma_lex_irreflexive(t);
                }
                assert(r1[j] == t);
            }
        }
        assert(r1.to_set() =~= r2.to_set());
        assert(strictly_sorted(r1)) by {
            assert forall|i: int, j: int| 0 <= i < j < r1.len() implies lex_lt(#[trigger] r1[i], #[trigger] r1[j]) by {
                assert(lex_lt(s1[i], s1[j]));
            }
        }
        assert(strictly_sorted(r2)) by {
            assert forall|i: int, j: int| 0 <= i < j < r2.len() implies lex_lt(#[trigger] r2[i], #[trigger] r2[j]) by {
                assert(lex_lt(s2[i], s2[j]));
            }
        }
        lemma_sorted_listing_unique(r1, r2);
        assert(s1 =~= r1.push(m1));
        assert(s2 =~= r2.push(m2));
    }
}

/// A strictly sorted sequence is the sorted listing of its own members.
pub proof fn lemma_sorted_listing_is(labels: Seq<Seq<char>>, members: Set<Seq<char>>)
    requires
        is_sorted_listing(labels, members),
    ensures
        sorted_listing(members) == labels,
{
    let chosen = sorted_listing(members);
    assert(is_sorted_listing(chosen, members));
    lemma_sorted_listing_unique(chosen, labels);
}

/// A strictly sorted sequence holds no label twice.
pub proof fn lemma_strictly_sorted_distinct(labels: Seq<Seq<char>>)
    requires
        strictly_sorted(labels),
    ensures
        labels.no_duplicates(),
{
    assert forall|i: int, j: int| 0 <= i < labels.len() && 0 <= j < labels.len() && i != j implies labels[i] != labels[j] by {
        if i < j {
            assert(lex_lt(labels[i], labels[j]));
            lemma_lex_irreflexive(labels[i]);
        } else {
            assert(lex_lt(labels[j], labels[i]));
            lemma_lex_irreflexive(labels[i]);
        }
    }
}

/// A label put between the labels before it and the labels after it keeps
/// the sequence strictly sorted, and is its only new member.
pub proof fn lemma_insert_keeps_sorted(before: Seq<Seq<char>>, place: int, label: Seq<char>)
    requires
        strictly_sorted(before),
        0 <= place <= before.len(),
        forall|i: int| 0 <= i < place ==> lex_lt(#[trigger] before[i], label),
        forall|i: int| place <= i < before.len() ==> lex_lt(label, #[trigger] before[i]),
    ensures
        strictly_sorted(before.insert(place, label)),
        before.insert(place, label).to_set() == before.to_set().insert(label),
{
    let after = before.insert(place, label);
    assert forall|i: int, j: int| 0 <= i < j < after.len() implies lex_lt(#[trigger] after[i], #[trigger] after[j]) by {
        if j < place {
            assert(lex_lt(before[i], before[j]));
        } else if j == place {
            assert(lex_lt(before[i], label));
        } else if i < place {
            assert(lex_lt(before[i], before[j - 1]));
        } else if i == place {
            assert(lex_lt(label, before[j - 1]));
        } else {
            assert(lex_lt(before[i - 1], before[j - 1]));
        }
    }
    assert forall|t: Seq<char>| after.to_set().contains(t) <==> before.to_set().insert(label).contains(t) by {
        if after.contains(t) {
            let k = choose|k: int| 0 <= k < after.len() && after[k] == t;
            if k < place {
                assert(before[k] == t);
            } else if k > place {
                assert(before[k - 1] == t);
            }
        }
        if before.contains(t) {
            let k = choose|k: int| 0 <= k < before.len() && before[k] == t;
            if k < place {
                assert(after[k] == t);
            } else {
                assert(after[k + 1] == t);
            }
        }
        if t == label {
            assert(after[place] == t);
        }
    }
    assert(after.to_set() =~= before.to_set().insert(label));
}

/// A label that a strictly sorted sequence does not hold has a place in it:
/// the labels before the place come before it, the others after it.
pub proof fn lemma_place_exists(labels: Seq<Seq<char>>, label: Seq<char>) -> (place: int)
    requires
        strictly_sorted(labels),
        !labels.contains(label),
    ensures
        0 <= place <= labels.len(),
        forall|i: int| 0 <= i < place ==> lex_lt(#[trigger] labels[i], label),
        forall|i: int| place <= i < labels.len() ==> lex_lt(label, #[trigger] labels[i]),
    decreases labels.len(),
{
    if labels.len() == 0 {
        0
    } else if lex_lt(labels.last(), label) {
        assert forall|i: int| 0 <= i < labels.len() implies lex_lt(#[trigger] labels[i], label) by {
            if i < labels.len() - 1 {
                assert(lex_lt(labels[i], labels[labels.len() - 1]));
                lemma_lex_transitive(labels[i], labels.last(), label);
            }
        }
        labels.len() as int
    } else {
        let rest = labels.drop_last();
        assert(strictly_sorted(rest)) by {
            assert forall|i: int, j: int| 0 <= i < j < rest.len() implies lex_lt(#[trigger] rest[i], #[trigger] rest[j]) by {
                assert(lex_lt(labels[i], labels[j]));
            }
        }
        assert(!rest.contains(label)) by {
            if rest.contains(label) {
                let k = choose|k: int| 0 <= k < rest.len() && rest[k] == label;
                assert(labels[k] == label);
            }
        }
        let place = lemma_place_exists(rest, label);
        assert(labels[labels.len() - 1] != label);
        lemma_lex_total(labels.last(), label);
        assert forall|i: int| place <= i < labels.len() implies lex_lt(label, #[trigger] labels[i]) by {
            if i < labels.len() - 1 {
                assert(lex_lt(label, rest[i]));
            }
        }
        assert forall|i: int| 0 <= i < place implies lex_lt(#[trigger] labels[i], label) by {
            assert(lex_lt(rest[i], label));
        }
        place
    }
}

/// Every finite set of labels has a sorted listing, and `sorted_listing`
/// gives it.
pub proof fn lemma_sorted_listing_exists(members: Set<Seq<char>>)
    requires
        members.finite(),
    ensures
        is_sorted_listing(sorted_listing(members), members),
    decreases members.len(),
{
    if members.len() == 0 {
        members.lemma_len0_is_empty();
        let none = Seq::<Seq<char>>::empty();
        assert(none.to_set() =~= members);
        assert(is_sorted_listing(none, members));
    } else {
        let label = members.choose();
        let rest = members.remove(label);
        lemma_sorted_listing_exists(rest);
        let listed = sorted_listing(rest);
        assert(!listed.contains(label)) by {
            if listed.contains(label) {
                assert(listed.to_set().contains(label));
            }
        }
        let place = lemma_place_exists(listed, label);
        lemma_insert_keeps_sorted(listed, place, label);
        assert(rest.insert(label) =~= members);
        assert(is_sorted_listing(listed.insert(place, label), members));
    }
}

/// Tells whether `a` comes before `b` in the lexicographic order.
pub fn text_less(a: &str, b: &str) -> (less: bool)
    ensures
        less == lex_lt(a@, b@),
{
    let a_len = a.unicode_len();
    let b_len = b.unicode_len();
    let mut i: usize = 0;
    assert(a@.skip(0) =~= a@ && b@.skip(0) =~= b@);
    while i < a_len && i < b_len
        invariant
            i <= a_len,
            i <= b_len,
            a_len == a@.len(),
            b_len == b@.len(),
            lex_lt(a@, b@) == lex_lt(a@.skip(i as int), b@.skip(i as int)),
        decreases a_len - i,
    {
        let ca = a.get_char(i);
        let cb = b.get_char(i);
        proof {
            assert(a@.skip(i as int)[0] == ca);
            assert(b@.skip(i as int)[0] == cb);
            assert(a@.skip(i as int).drop_first() =~= a@.skip(i + 1));
            assert(b@.skip(i as int).drop_first() =~= b@.skip(i + 1));
        }
        if ca != cb {
            return (ca as u32) < (cb as u32);
        }
        i = i + 1;
    }
    i < b_len
}

/// Puts `label` at its place in a strictly sorted list, unless the list
/// holds it already.
pub fn insert_sorted(labels: &mut Vec<String>, label: String)
    requires
        strictly_sorted(texts(old(labels)@)),
    ensures
        strictly_sorted(texts(final(labels)@)),
        texts(final(labels)@).to_set() == texts(old(labels)@).to_set().insert(label@),
{
    let ghost before = texts(labels@);
    let mut p: usize = 0;
    while p < labels.len() && text_less(labels[p].as_str(), label.as_str())
        invariant
            p <= labels.len(),
            texts(labels@) == before,
            forall|i: int| 0 <= i < p ==> lex_lt(#[trigger] before[i], label@),
        decreases labels.len() - p,
    {
        p = p + 1;
    }
    if p < labels.len() && labels[p] == label {
        assert(labels@[p as int]@ == label@);
        assert(before[p as int] == label@);
        assert(before.contains(label@));
        assert(before.to_set() =~= before.to_set().insert(label@));
    } else {
        proof {
            if p < labels.len() {
                assert(before[p as int] == labels@[p as int]@);
                lemma_lex_total(before[p as int], label@);
            }
        }
        let ghost x = label@;
        proof {
            assert forall|i: int| p <= i < before.len() implies lex_lt(x, #[trigger] before[i]) by {
                if i > p {
                    assert(lex_lt(before[p as int], before[i]));
                    lemma_lex_transitive(x, before[p as int], before[i]);
                }
            }
            lemma_insert_keeps_sorted(before, p as int, x);
        }
        labels.insert(p, label);
        assert(texts(labels@) =~= before.insert(p as int, x));
    }
}

/// Sorts the labels and drops the repeated ones.
pub fn sorted_distinct(labels: &Vec<String>) -> (sorted: Vec<String>)
    ensures
        is_sorted_listing(texts(sorted@), texts(labels@).to_set()),
{
    let mut sorted: Vec<String> = Vec::new();
    let mut i: usize = 0;
    assert(texts(sorted@).to_set() =~= texts(labels@).take(0).to_set());
    while i < labels.len()
        invariant
            i <= labels.len(),
            strictly_sorted(texts(sorted@)),
            texts(sorted@).to_set() == texts(labels@).take(i as int).to_set(),
        decreases labels.len() - i,
    {
        let label = labels[i].clone();
        insert_sorted(&mut sorted, label);
        proof {
            let seen = texts(labels@).take(i as int);
            let now = texts(labels@).take(i + 1);
            assert(now =~= seen.push(labels@[i as int]@));
            assert forall|t: Seq<char>| now.to_set().contains(t) <==> seen.to_set().insert(labels@[i as int]@).contains(t) by {
                if now.contains(t) {
                    let k = choose|k: int| 0 <= k < now.len() && now[k] == t;
                    if k < i {
                        assert(seen[k] == t);
                    }
                }
                if seen.contains(t) {
                    let k = choose|k: int| 0 <= k < seen.len() && seen[k] == t;
                    assert(now[k] == t);
                }
                if t == labels@[i as int]@ {
                    assert(now[i as int] == t);
                }
            }
            assert(now.to_set() =~= seen.to_set().insert(labels@[i as int]@));
        }
        i = i + 1;
    }
    assert(texts(labels@).take(i as int) =~= texts(labels@));
    sorted
}

} // verus!
