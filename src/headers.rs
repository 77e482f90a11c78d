use vstd::prelude::*;
use vstd::string::*;

use crate::events::groups_view;

verus! {

/// Strict lexicographic order on texts, character by character, each
/// character ordered by its code point.
pub open spec fn text_lt(a: Seq<char>, b: Seq<char>) -> bool
    decreases a.len(),
{
    if a.len() == 0 {
        b.len() > 0
    } else if b.len() == 0 {
        false
    } else if a[0] != b[0] {
        a[0] < b[0]
    } else {
        text_lt(a.drop_first(), b.drop_first())
    }
}

/// The header pairs as plain values.
pub open spec fn pairs_view(ps: Seq<(String, String)>) -> Seq<(Seq<char>, Seq<char>)> {
    ps.map_values(|p: (String, String)| (p.0@, p.1@))
}

/// The values that the pairs give to `name`, in the pairs' order.
pub open spec fn values_of(ps: Seq<(Seq<char>, Seq<char>)>, name: Seq<char>) -> Seq<Seq<char>>
    decreases ps.len(),
{
    if ps.len() == 0 {
        Seq::empty()
    } else {
        values_of(ps.drop_last(), name) + if ps.last().0 == name {
            seq![ps.last().1]
        } else {
            Seq::empty()
        }
    }
}

/// The names of `gs` are in strictly increasing order.
pub open spec fn names_sorted(gs: Seq<(Seq<char>, Seq<Seq<char>>)>) -> bool {
    forall|i: int, j: int| 0 <= i < j < gs.len() ==> text_lt(gs[i].0, gs[j].0)
}

/// Some group of `gs` has the name `name`.
pub open spec fn has_group(gs: Seq<(Seq<char>, Seq<Seq<char>>)>, name: Seq<char>) -> bool {
    exists|i: int| 0 <= i < gs.len() && gs[i].0 == name
}

/// `gs` groups the pairs `ps` by name: the names are sorted and unique, each one
/// occurs among the pairs, each name of the pairs has a group, and each group holds
/// all the values of its name in the pairs' order.
pub open spec fn groups_of(
    ps: Seq<(Seq<char>, Seq<char>)>,
    gs: Seq<(Seq<char>, Seq<Seq<char>>)>,
) -> bool {
    &&& names_sorted(gs)
    &&& forall|i: int| 0 <= i < gs.len() ==> gs[i].1 == values_of(ps, gs[i].0)
    &&& forall|i: int| 0 <= i < gs.len() ==> values_of(ps, #[trigger] gs[i].0).len() > 0
    &&& forall|j: int| 0 <= j < ps.len() ==> has_group(gs, #[trigger] ps[j].0)
}

/// No text is before itself.
pub proof fn lemma_text_lt_irreflexive(a: Seq<char>)
    ensures
        !text_lt(a, a),
    decreases a.len(),
{
    if a.len() > 0 {
        lemma_text_lt_irreflexive(a.drop_first());
    }
}

/// Of two different texts, one is before the other.
pub proof fn lemma_text_lt_total(a: Seq<char>, b: Seq<char>)
    requires
        a != b,
    ensures
        text_lt(a, b) || text_lt(b, a),
    decreases a.len(),
{
    if a.len() > 0 && b.len() > 0 && a[0] == b[0] {
        if a.drop_first() == b.drop_first() {
            assert(a =~= seq![a[0]] + a.drop_first());
            assert(b =~= seq![b[0]] + b.drop_first());
        }
        lemma_text_lt_total(a.drop_first(), b.drop_first());
    } else if a.len() > 0 && b.len() > 0 {
        assert(a[0] != b[0]);
    } else if a.len() == 0 && b.len() == 0 {
        assert(a =~= b);
    }
}

/// A text before another is not after it.
pub proof fn lemma_text_lt_asymmetric(a: Seq<char>, b: Seq<char>)
    requires
        text_lt(a, b),
    ensures
        !text_lt(b, a),
    decreases a.len(),
{
    if a.len() > 0 && b.len() > 0 && a[0] == b[0] {
        lemma_text_lt_asymmetric(a.drop_first(), b.drop_first());
    }
}

/// The order on texts is transitive.
pub proof fn lemma_text_lt_transitive(a: Seq<char>, b: Seq<char>, c: Seq<char>)
    requires
        text_lt(a, b),
        text_lt(b, c),
    ensures
        text_lt(a, c),
    decreases a.len(),
{
    if a.len() > 0 && b.len() > 0 && c.len() > 0 && a[0] == b[0] && b[0] == c[0] {
        lemma_text_lt_transitive(a.drop_first(), b.drop_first(), c.drop_first());
    }
}

/// Compares two texts in the order of `text_lt`.
pub fn text_less(a: &str, b: &str) -> (r: bool)
    ensures
        r == text_lt(a@, b@),
{
    let a_len = a.unicode_len();
    let b_len = b.unicode_len();
    let mut i: usize = 0;
    assert(a@.skip(0) =~= a@);
    assert(b@.skip(0) =~= b@);
    while i < a_len && i < b_len
        invariant
            a_len == a@.len(),
            b_len == b@.len(),
            i <= a_len,
            i <= b_len,
            text_lt(a@, b@) == text_lt(a@.skip(i as int), b@.skip(i as int)),
        decreases a_len - i,
    {
        let x = a.get_char(i);
        let y = b.get_char(i);
        if x != y {
            return x < y;
        }
        proof {
            assert(a@.skip(i as int).drop_first() =~= a@.skip(i + 1));
            assert(b@.skip(i as int).drop_first() =~= b@.skip(i + 1));
        }
        i = i + 1;
    }
    i < b_len && i == a_len
}

/// Values are found only for a name that some pair carries.
pub proof fn lemma_values_of_nonempty(ps: Seq<(Seq<char>, Seq<char>)>, name: Seq<char>)
    requires
        values_of(ps, name).len() > 0,
    ensures
        exists|j: int| 0 <= j < ps.len() && ps[j].0 == name,
    decreases ps.len(),
{
    if ps.last().0 != name {
        lemma_values_of_nonempty(ps.drop_last(), name);
        let j = choose|j: int| 0 <= j < ps.drop_last().len() && ps.drop_last()[j].0 == name;
        assert(ps[j].0 == name);
    } else {
        assert(ps[ps.len() - 1].0 == name);
    }
}

/// Groups header pairs by name: the names come out sorted and once each, and each
/// name carries all of its values in the order of the pairs.
pub fn group_headers(pairs: &Vec<(String, String)>) -> (r: Vec<(String, Vec<String>)>)
    ensures
        groups_of(pairs_view(pairs@), groups_view(r@)),
{
    let ghost ps = pairs_view(pairs@);
    let mut out: Vec<(String, Vec<String>)> = Vec::new();
    proof {
        assert(ps.take(0) =~= Seq::<(Seq<char>, Seq<char>)>::empty());
        assert(groups_view(out@) =~= Seq::<(Seq<char>, Seq<Seq<char>>)>::empty());
    }
    let mut k: usize = 0;
    while k < pairs.len()
        invariant
            k <= pairs@.len(),
            ps == pairs_view(pairs@),
            groups_of(ps.take(k as int), groups_view(out@)),
        decreases pairs@.len() - k,
    {
        let ghost gv = groups_view(out@);
        let ghost before = ps.take(k as int);
        let ghost after = ps.take(k + 1);
        let name = &pairs[k].0;
        let value = &pairs[k].1;
        let ghost n = name@;
        let ghost v = value@;
        proof {
            assert(after.drop_last() =~= before);
            assert(after.last() == (n, v));
            assert forall|m: Seq<char>| #[trigger] values_of(after, m) == values_of(before, m) + if m
                == n {
                seq![v]
            } else {
                Seq::<Seq<char>>::empty()
            } by {}
        }
        let mut pos: usize = 0;
        while pos < out.len() && text_less(out[pos].0.as_str(), name.as_str())
            invariant
                pos <= out@.len(),
                gv == groups_view(out@),
                n == name@,
                forall|i: int| 0 <= i < pos ==> text_lt(#[trigger] gv[i].0, n),
            decreases out@.len() - pos,
        {
            pos = pos + 1;
        }
        if pos < out.len() && out[pos].0 == *name {
            let ghost old_out = out@;
            let (group_name, mut group_values) = out.remove(pos);
            let ghost old_values = group_values@;
            group_values.push(value.clone());
            out.insert(pos, (group_name, group_values));
            proof {
                let ng = gv.update(pos as int, (n, gv[pos as int].1.push(v)));
                assert(old_values == old_out[pos as int].1@);
                assert(out@ =~= old_out.update(pos as int, out@[pos as int]));
                assert(out@[pos as int].1@.map_values(|x: String| x@) =~= gv[pos as int].1.push(v));
                assert forall|i: int| 0 <= i < ng.len() implies groups_view(out@)[i] == ng[i] by {
                    if i != pos {
                        assert(out@[i] == old_out[i]);
                    }
                }
                assert(groups_view(out@) =~= ng);
                assert forall|i: int| 0 <= i < gv.len() && i != pos implies #[trigger] gv[i].0 != n by {
                    if i < pos {
                        lemma_text_lt_irreflexive(n);
                    } else {
                        lemma_text_lt_irreflexive(n);
                    }
                }
                assert forall|j: int| 0 <= j < after.len() implies has_group(ng, #[trigger] after[j].0) by {
                    if j < k {
                        assert(after[j] == before[j]);
                        let i = choose|i: int| 0 <= i < gv.len() && gv[i].0 == before[j].0;
                        assert(ng[i].0 == gv[i].0);
                    } else {
                        assert(ng[pos as int].0 == n);
                    }
                }
                assert(values_of(after, n) =~= gv[pos as int].1.push(v));
                assert forall|i: int| 0 <= i < ng.len() implies #[trigger] ng[i].1 == values_of(after, ng[i].0) by {
                    if i != pos {
                        assert(ng[i] == gv[i]);
                    }
                }
                assert forall|i: int| 0 <= i < ng.len() implies values_of(after, #[trigger] ng[i].0).len() > 0 by {
                    if i != pos {
                        assert(ng[i] == gv[i]);
                    }
                }
                assert(names_sorted(ng));
                assert(groups_of(after, ng));
            }
        } else {
            let ghost old_out = out@;
            let mut fresh: Vec<String> = Vec::new();
            fresh.push(value.clone());
            out.insert(pos, (name.clone(), fresh));
            proof {
                let ng = gv.insert(pos as int, (n, seq![v]));
                assert(out@ =~= old_out.insert(pos as int, out@[pos as int]));
                assert(out@[pos as int].1@.map_values(|x: String| x@) =~= seq![v]);
                assert forall|i: int| 0 <= i < ng.len() implies groups_view(out@)[i] == ng[i] by {
                    if i < pos {
                        assert(out@[i] == old_out[i]);
                    } else if i > pos {
                        assert(out@[i] == old_out[i - 1]);
                    }
                }
                assert(groups_view(out@) =~= ng);
                if pos < gv.len() {
                    lemma_text_lt_total(gv[pos as int].0, n);
                }
                assert forall|i: int| pos <= i < gv.len() implies text_lt(n, #[trigger] gv[i].0) by {
                    if i > pos {
                        lemma_text_lt_transitive(n, gv[pos as int].0, gv[i].0);
                    }
                }
                assert forall|i: int| 0 <= i < gv.len() implies #[trigger] gv[i].0 != n by {
                    lemma_text_lt_irreflexive(n);
                }
                if values_of(before, n).len() > 0 {
                    lemma_values_of_nonempty(before, n);
                    let j = choose|j: int| 0 <= j < before.len() && before[j].0 == n;
                    assert(has_group(gv, before[j].0));
                }
                assert(values_of(before, n) =~= Seq::<Seq<char>>::empty());
                assert forall|i: int, j: int| 0 <= i < j < ng.len() implies text_lt(ng[i].0, ng[j].0) by {
                    if j < pos {
                    } else if j == pos {
                    } else if i < pos {
                        lemma_text_lt_transitive(ng[i].0, n, ng[j].0);
                    } else if i == pos {
                    } else {
                    }
                }
                assert forall|i: int| 0 <= i < ng.len() implies #[trigger] ng[i].1 == values_of(after, ng[i].0) by {
                    if i < pos {
                    } else if i > pos {
                        assert(ng[i] == gv[i - 1]);
                    }
                }
                assert forall|j: int| 0 <= j < after.len() implies has_group(ng, #[trigger] after[j].0) by {
                    if j < k {
                        assert(after[j] == before[j]);
                        let i = choose|i: int| 0 <= i < gv.len() && gv[i].0 == before[j].0;
                        if i < pos {
                            assert(ng[i].0 == gv[i].0);
                        } else {
                            assert(ng[i + 1].0 == gv[i].0);
                        }
                    } else {
                        assert(ng[pos as int].0 == n);
                    }
                }
                assert forall|i: int| 0 <= i < ng.len() implies values_of(after, #[trigger] ng[i].0).len() > 0 by {
                    if i < pos {
                    } else if i > pos {
                        assert(ng[i] == gv[i - 1]);
                    }
                }
                assert(groups_of(after, ng));
            }
        }
        k = k + 1;
    }
    proof {
        assert(ps.take(pairs@.len() as int) =~= ps);
    }
    out
}

} // verus!
