//! Ordering and equality on strings, and a verified sort.
//!
//! Option rendering must be deterministic, so option keys are sorted in the
//! lexicographic order on their code points. `lex_leq` is that order; it is
//! proved to be a total order, which makes the sorted sequence unique.
use vstd::prelude::*;
use vstd::relations::{sorted_by, total_ordering};
use vstd::seq_lib::lemma_sorted_unique;

verus! {

/// Lexicographic "less than or equal" on character sequences: a proper
/// prefix comes first, otherwise the first differing code point decides.
pub open spec fn lex_leq(a: Seq<char>, b: Seq<char>) -> bool
    decreases a.len(),
{
    if a.len() == 0 {
        true
    } else if b.len() == 0 {
        false
    } else if a[0] != b[0] {
        (a[0] as int) < (b[0] as int)
    } else {
        lex_leq(a.drop_first(), b.drop_first())
    }
}

/// `lex_leq` as a first-class relation, for the vstd ordering vocabulary.
pub open spec fn lex_leq_f() -> spec_fn(Seq<char>, Seq<char>) -> bool {
    |a: Seq<char>, b: Seq<char>| lex_leq(a, b)
}

proof fn lemma_lex_refl(a: Seq<char>)
    ensures
        lex_leq(a, a),
    decreases a.len(),
{
    if a.len() > 0 {
        lemma_lex_refl(a.drop_first());
    }
}

proof fn lemma_lex_antisym(a: Seq<char>, b: Seq<char>)
    requires
        lex_leq(a, b),
        lex_leq(b, a),
    ensures
        a == b,
    decreases a.len(),
{
    if a.len() == 0 {
        assert(b.len() == 0);
        assert(a =~= b);
    } else {
        assert(b.len() > 0);
        if a[0] != b[0] {
            assert((a[0] as int) < (b[0] as int));
            assert((b[0] as int) < (a[0] as int));
            assert(false);
        }
        assert(lex_leq(a.drop_first(), b.drop_first()));
        assert(lex_leq(b.drop_first(), a.drop_first()));
        lemma_lex_antisym(a.drop_first(), b.drop_first());
        assert(a.drop_first().len() == a.len() - 1);
        assert(b.drop_first().len() == b.len() - 1);
        assert(a =~= b) by {
            assert(forall|i: int|
                1 <= i < a.len() ==> a[i] == a.drop_first()[i - 1] && b[i] == b.drop_first()[i
                    - 1]);
        }
    }
}

proof fn lemma_lex_trans(a: Seq<char>, b: Seq<char>, c: Seq<char>)
    requires
        lex_leq(a, b),
        lex_leq(b, c),
    ensures
        lex_leq(a, c),
    decreases a.len(),
{
    if a.len() == 0 {
    } else {
        assert(b.len() > 0);
        assert(c.len() > 0);
        if a[0] == b[0] && b[0] == c[0] {
            lemma_lex_trans(a.drop_first(), b.drop_first(), c.drop_first());
        }
    }
}

proof fn lemma_lex_total(a: Seq<char>, b: Seq<char>)
    ensures
        lex_leq(a, b) || lex_leq(b, a),
    decreases a.len(),
{
    if a.len() == 0 {
        assert(lex_leq(a, b));
    } else if b.len() == 0 {
        assert(lex_leq(b, a));
    } else if a[0] == b[0] {
        lemma_lex_total(a.drop_first(), b.drop_first());
    } else {
        assert((a[0] as int) != (b[0] as int));
    }
}

/// The lexicographic order on character sequences is a total order.
pub proof fn lemma_lex_total_ordering()
    ensures
        total_ordering(lex_leq_f()),
{
    let r = lex_leq_f();
    assert forall|x: Seq<char>| #[trigger] r(x, x) by {
        lemma_lex_refl(x);
    }
    assert forall|x: Seq<char>, y: Seq<char>| #[trigger] r(x, y) && #[trigger] r(y, x) implies x
        == y by {
        lemma_lex_antisym(x, y);
    }
    assert forall|x: Seq<char>, y: Seq<char>, z: Seq<char>|
        #[trigger] r(x, y) && #[trigger] r(y, z) implies r(x, z) by {
        lemma_lex_trans(x, y, z);
    }
    assert forall|x: Seq<char>, y: Seq<char>| #[trigger] r(x, y) || #[trigger] r(y, x) by {
        lemma_lex_total(x, y);
    }
}

/// Skipping an equal prefix does not change how two sequences compare.
proof fn lemma_lex_skip(a: Seq<char>, b: Seq<char>, i: int)
    requires
        0 <= i <= a.len(),
        i <= b.len(),
        forall|j: int| 0 <= j < i ==> a[j] == b[j],
    ensures
        lex_leq(a, b) == lex_leq(a.skip(i), b.skip(i)),
    decreases i,
{
    if i == 0 {
        assert(a.skip(0) =~= a);
        assert(b.skip(0) =~= b);
    } else {
        assert(a[0] == b[0]);
        assert(forall|j: int|
            0 <= j < i - 1 ==> a.drop_first()[j] == a[j + 1] && b.drop_first()[j] == b[j + 1]);
        lemma_lex_skip(a.drop_first(), b.drop_first(), i - 1);
        assert(a.drop_first().skip(i - 1) =~= a.skip(i));
        assert(b.drop_first().skip(i - 1) =~= b.skip(i));
    }
}

/// Lexicographic comparison, character by character.
pub(crate) fn str_le(a: &str, b: &str) -> (r: bool)
    ensures
        r == lex_leq(a@, b@),
{
    let la = a.unicode_len();
    let lb = b.unicode_len();
    let mut i: usize = 0;
    while i < la && i < lb
        invariant
            la == a@.len(),
            lb == b@.len(),
            i <= la,
            i <= lb,
            forall|j: int| 0 <= j < i ==> a@[j] == b@[j],
        decreases la - i,
    {
        let ca = a.get_char(i);
        let cb = b.get_char(i);
        if ca != cb {
            proof {
                lemma_lex_skip(a@, b@, i as int);
                assert(a@.skip(i as int)[0] == ca);
                assert(b@.skip(i as int)[0] == cb);
            }
            return (ca as u32) < (cb as u32);
        }
        i += 1;
    }
    proof {
        lemma_lex_skip(a@, b@, i as int);
        if la <= lb {
            assert(a@.skip(i as int).len() == 0);
        } else {
            assert(b@.skip(i as int).len() == 0);
            assert(a@.skip(i as int).len() > 0);
        }
    }
    la <= lb
}

/// Character-by-character string equality.
pub fn str_eq(a: &str, b: &str) -> (r: bool)
    ensures
        r == (a@ == b@),
{
    let la = a.unicode_len();
    let lb = b.unicode_len();
    if la != lb {
        return false;
    }
    let mut i: usize = 0;
    while i < la
        invariant
            la == a@.len(),
            la == b@.len(),
            i <= la,
            forall|j: int| 0 <= j < i ==> a@[j] == b@[j],
        decreases la - i,
    {
        if a.get_char(i) != b.get_char(i) {
            return false;
        }
        i += 1;
    }
    proof {
        assert(a@ =~= b@);
    }
    true
}

/// The sequence of views of a sequence of strings.
pub open spec fn view_seq(s: Seq<String>) -> Seq<Seq<char>> {
    s.map_values(|x: String| x@)
}

/// Sorts strings into the lexicographic order on their code points, by
/// repeatedly extracting a least remaining element.
pub fn sort_strings(input: Vec<String>) -> (out: Vec<String>)
    ensures
        view_seq(out@) == view_seq(input@).sort_by(lex_leq_f()),
{
    broadcast use vstd::seq_lib::group_to_multiset_ensures;
    broadcast use vstd::multiset::group_multiset_axioms;

    let ghost iview = view_seq(input@);
    let mut rest = input;
    let mut out: Vec<String> = Vec::new();
    proof {
        assert(view_seq(out@) =~= Seq::<Seq<char>>::empty());
        assert(view_seq(out@).to_multiset().add(view_seq(rest@).to_multiset()) =~= view_seq(
            rest@,
        ).to_multiset());
    }
    while rest.len() > 0
        invariant
            sorted_by(view_seq(out@), lex_leq_f()),
            view_seq(out@).to_multiset().add(view_seq(rest@).to_multiset())
                == iview.to_multiset(),
            forall|i: int, j: int|
                0 <= i < out@.len() && 0 <= j < rest@.len() ==> lex_leq(out@[i]@, rest@[j]@),
        decreases rest.len(),
    {
        let mut m: usize = 0;
        let mut k: usize = 1;
        proof {
            lemma_lex_refl(rest@[0]@);
        }
        while k < rest.len()
            invariant
                rest@.len() > 0,
                m < k,
                k <= rest@.len(),
                forall|j: int| 0 <= j < k ==> lex_leq(rest@[m as int]@, rest@[j]@),
            decreases rest@.len() - k,
        {
            if str_le(rest[k].as_str(), rest[m].as_str()) {
                proof {
                    assert forall|j: int| 0 <= j < k + 1 implies lex_leq(
                        rest@[k as int]@,
                        rest@[j]@,
                    ) by {
                        if j < k {
                            lemma_lex_trans(rest@[k as int]@, rest@[m as int]@, rest@[j]@);
                        } else {
                            lemma_lex_refl(rest@[k as int]@);
                        }
                    }
                }
                m = k;
            } else {
                proof {
                    lemma_lex_total(rest@[m as int]@, rest@[k as int]@);
                }
            }
            k += 1;
        }
        let ghost old_out = out@;
        let ghost old_rest = rest@;
        let x = rest.remove(m);
        out.push(x);
        proof {
            view_seq(old_rest).to_multiset_ensures();
            view_seq(old_out).to_multiset_ensures();
            assert(view_seq(rest@) =~= view_seq(old_rest).remove(m as int));
            assert(view_seq(out@) =~= view_seq(old_out).push(x@));
            assert(view_seq(old_rest)[m as int] == x@);
            assert(view_seq(old_rest).remove(m as int).to_multiset() =~= view_seq(
                old_rest,
            ).to_multiset().remove(x@));
            assert(view_seq(old_out).push(x@).to_multiset() =~= view_seq(
                old_out,
            ).to_multiset().insert(x@));
            assert(view_seq(old_rest).to_multiset().contains(x@));
            assert(view_seq(out@).to_multiset().add(view_seq(rest@).to_multiset()) =~= view_seq(
                old_out,
            ).to_multiset().add(view_seq(old_rest).to_multiset()));
            assert(sorted_by(view_seq(out@), lex_leq_f())) by {
                assert(forall|i: int|
                    0 <= i < old_out.len() ==> lex_leq(old_out[i]@, x@));
            }
            assert forall|i: int, j: int|
                0 <= i < out@.len() && 0 <= j < rest@.len() implies lex_leq(
                out@[i]@,
                rest@[j]@,
            ) by {
                let j0 = if j < m { j } else { j + 1 };
                assert(rest@[j] == old_rest[j0]);
                if i < old_out.len() {
                    assert(lex_leq(old_out[i]@, old_rest[j0]@));
                } else {
                    assert(out@[i] == x);
                    assert(lex_leq(x@, old_rest[j0]@));
                }
            }
        }
    }
    proof {
        lemma_lex_total_ordering();
        assert(view_seq(rest@) =~= Seq::<Seq<char>>::empty());
        view_seq(rest@).to_multiset_ensures();
        assert(view_seq(rest@).to_multiset() =~= vstd::multiset::Multiset::<Seq<char>>::empty());
        assert(view_seq(out@).to_multiset() =~= view_seq(out@).to_multiset().add(view_seq(
            rest@,
        ).to_multiset()));
        iview.lemma_sort_by_ensures(lex_leq_f());
        lemma_sorted_unique(view_seq(out@), iview.sort_by(lex_leq_f()), lex_leq_f());
    }
    out
}

} // verus!
