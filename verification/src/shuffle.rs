//! Uniform shuffling of questions and answers, and the laws that reordering
//! preserves: the multiset of elements is unchanged, and the correctness tag
//! keeps pointing at the option that was tagged at construction time.

use vstd::prelude::*;
use crate::model::{AnswerView, Question, is_correct_at, has_single_correct};

verus! {

/// Relies on `rand::Rng::gen_range` over `0..n`: a uniformly random value in
/// that range, hence below `n`; the range must be non-empty.
#[verifier::external_body]
fn rand_below(n: usize) -> (r: usize)
    requires
        n > 0,
    ensures
        r < n,
{
    rand::Rng::gen_range(&mut rand::thread_rng(), 0..n)
}

/// Exchange the elements at positions `i` and `j`.
fn vec_swap<T>(v: &mut Vec<T>, i: usize, j: usize)
    requires
        i < old(v)@.len(),
        j < old(v)@.len(),
    ensures
        final(v)@ =~= old(v)@.update(i as int, old(v)@[j as int]).update(j as int, old(v)@[i as int]),
{
    if i != j {
        let a = if i < j { i } else { j };
        let b = if i < j { j } else { i };
        let xb = v.remove(b);
        let xa = v.remove(a);
        v.insert(a, xb);
        v.insert(b, xa);
    }
}

/// One draw per position, each at most its own position: the injectable
/// source of randomness the permutation consumes. A uniform source makes the
/// permutation uniform; a fixed sequence makes it deterministic, and the
/// identity draws leave the order untouched.
pub open spec fn valid_draws(draws: Seq<usize>, len: nat) -> bool {
    &&& draws.len() == len
    &&& forall|k: int| 0 <= k < draws.len() ==> #[trigger] draws[k] <= k
}

/// Draws taken from `rand`, one uniform draw per position.
fn random_draws(n: usize) -> (r: Vec<usize>)
    ensures
        valid_draws(r@, n as nat),
{
    let mut draws: Vec<usize> = Vec::new();
    let mut k: usize = 0;
    while k < n
        invariant
            k <= n,
            draws@.len() == k,
            forall|m: int| 0 <= m < k ==> #[trigger] draws@[m] <= m,
        decreases n - k,
    {
        draws.push(rand_below(k + 1));
        k = k + 1;
    }
    draws
}

/// `s` with the values at positions `a` and `b` exchanged.
pub open spec fn swap_seq<A>(s: Seq<A>, a: int, b: int) -> Seq<A> {
    s.update(a, s[b]).update(b, s[a])
}

/// The permutation the draws denote, applied to the positions below `i`:
/// position `i - 1` is exchanged with the position its draw names, then the
/// same for the next position down, until one position is left.
pub open spec fn apply_draws<A>(s: Seq<A>, draws: Seq<usize>, i: int) -> Seq<A>
    decreases i,
{
    if i <= 1 {
        s
    } else {
        apply_draws(swap_seq(s, i - 1, draws[i - 1] as int), draws, i - 1)
    }
}

/// Apply the permutation the draws denote (Fisher–Yates), in place: from the
/// last position down, each position is exchanged with the position its draw
/// names. The result is exactly [`apply_draws`] of the input, so a fixed draw
/// sequence gives one known permutation; in particular the multiset of values
/// is preserved and the identity draws change nothing.
pub fn permute_with<T: DeepView>(v: &mut Vec<T>, draws: &Vec<usize>)
    requires
        valid_draws(draws@, old(v)@.len() as nat),
    ensures
        final(v)@ == apply_draws(old(v)@, draws@, old(v)@.len() as int),
        final(v)@.len() == old(v)@.len(),
        final(v).deep_view().to_multiset() == old(v).deep_view().to_multiset(),
        (forall|k: int| 0 <= k < draws@.len() ==> #[trigger] draws@[k] == k) ==> final(v)@
            == old(v)@,
{
    broadcast use vstd::seq_lib::to_multiset_update, vstd::seq_lib::group_to_multiset_ensures, vstd::multiset::group_multiset_axioms;

    let ghost identity = forall|k: int| 0 <= k < draws@.len() ==> #[trigger] draws@[k] == k;
    let mut i: usize = v.len();
    while i > 1
        invariant
            i <= v@.len(),
            v@.len() == old(v)@.len(),
            valid_draws(draws@, old(v)@.len() as nat),
            identity == (forall|k: int| 0 <= k < draws@.len() ==> #[trigger] draws@[k] == k),
            v.deep_view().to_multiset() == old(v).deep_view().to_multiset(),
            identity ==> v@ == old(v)@,
            apply_draws(old(v)@, draws@, old(v)@.len() as int) == apply_draws(
                v@,
                draws@,
                i as int,
            ),
        decreases i,
    {
        let j = draws[i - 1];
        let ghost prevals = v@;
        let ghost pre = v.deep_view();
        vec_swap(v, i - 1, j);
        proof {
            let ii = i - 1 as int;
            let jj = j as int;
            assert(v@ =~= swap_seq(prevals, ii, jj));
            assert(apply_draws(prevals, draws@, i as int) == apply_draws(v@, draws@, ii));
            assert(0 <= ii < pre.len() && 0 <= jj < pre.len());
            let s1 = pre.update(ii, pre[jj]);
            let s2 = s1.update(jj, pre[ii]);
            assert(v.deep_view() =~= s2);
            assert(s1[jj] == pre[jj]);
            assert(pre.contains(pre[ii]));
            assert(pre.contains(pre[jj]));
            pre.to_multiset_ensures();
            s1.to_multiset_ensures();
            s2.to_multiset_ensures();
            vstd::seq_lib::to_multiset_update(pre, ii, pre[jj]);
            vstd::seq_lib::to_multiset_update(s1, jj, pre[ii]);
            assert(s1.to_multiset() == pre.to_multiset().insert(pre[jj]).remove(pre[ii]));
            assert(s2.to_multiset() == s1.to_multiset().insert(pre[ii]).remove(s1[jj]));
            assert(pre.to_multiset().count(pre[ii]) > 0);
            assert(pre.to_multiset().count(pre[jj]) > 0);
            assert forall|x: <T as DeepView>::V|
                s2.to_multiset().count(x) == pre.to_multiset().count(x) by {
                assert(s1.to_multiset().count(x) == pre.to_multiset().insert(pre[jj]).remove(pre[ii]).count(x));
                assert(s2.to_multiset().count(x) == s1.to_multiset().insert(pre[ii]).remove(s1[jj]).count(x));
            }
            assert(s2.to_multiset() =~= pre.to_multiset());
            if identity {
                assert(j == i - 1);
                assert(v@ =~= prevals);
            }
        }
        i = i - 1;
    }
}

/// Shuffle in place with draws from `rand`.
fn shuffle_in_place<T: DeepView>(v: &mut Vec<T>)
    ensures
        final(v)@.len() == old(v)@.len(),
        final(v).deep_view().to_multiset() == old(v).deep_view().to_multiset(),
{
    let draws = random_draws(v.len());
    permute_with(v, &draws);
}

/// Uniformly permute the question order. The multiset of questions — prompts
/// and tagged answers alike — is unchanged.
pub fn shuffle_questions(questions: &mut Vec<Question>)
    ensures
        final(questions)@.len() == old(questions)@.len(),
        final(questions).deep_view().to_multiset() == old(questions).deep_view().to_multiset(),
{
    shuffle_in_place(questions);
}

/// Uniformly permute a copy of the question's answers, leaving the given
/// question untouched. The prompt is kept and the multiset of answers —
/// texts with their correctness tags — is unchanged.
pub fn shuffle_answers(question: &Question) -> (r: Question)
    ensures
        r@.prompt == question@.prompt,
        r@.answers.to_multiset() == question@.answers.to_multiset(),
{
    let mut shuffled = question.duplicate();
    shuffle_in_place(&mut shuffled.answers);
    shuffled
}

/// Two distinct positions holding the same value put that value in the
/// sequence's multiset at least twice.
proof fn lemma_two_indices_count_ge_two<A>(s: Seq<A>, i1: int, i2: int)
    requires
        0 <= i1 < s.len(),
        0 <= i2 < s.len(),
        i1 != i2,
        s[i1] == s[i2],
    ensures
        s.to_multiset().count(s[i1]) >= 2,
{
    broadcast use vstd::multiset::group_multiset_axioms;

    s.to_multiset_ensures();
    let r = s.remove(i1);
    r.to_multiset_ensures();
    s.remove_ensures(i1);
    let k = if i2 < i1 { i2 } else { i2 - 1 };
    assert(r[k] == s[i2]);
    assert(r.contains(s[i1]));
    assert(r.to_multiset().count(s[i1]) > 0);
    assert(s.contains(s[i1]));
    assert(s.to_multiset().count(s[i1]) == r.to_multiset().count(s[i1]) + 1);
}

/// A value the sequence's multiset holds at least twice sits at two distinct
/// positions.
proof fn lemma_count_ge_two_two_indices<A>(s: Seq<A>, x: A)
    requires
        s.to_multiset().count(x) >= 2,
    ensures
        exists|i1: int, i2: int|
            0 <= i1 < s.len() && 0 <= i2 < s.len() && i1 != i2 && s[i1] == x && s[i2] == x,
{
    broadcast use vstd::multiset::group_multiset_axioms;

    s.to_multiset_ensures();
    assert(s.contains(x));
    let i1 = choose|i: int| 0 <= i < s.len() && s[i] == x;
    let r = s.remove(i1);
    r.to_multiset_ensures();
    s.remove_ensures(i1);
    assert(r.to_multiset() =~= s.to_multiset().remove(x));
    assert(r.to_multiset().count(x) >= 1);
    assert(r.contains(x));
    let k = choose|k: int| 0 <= k < r.len() && r[k] == x;
    let i2: int = if k < i1 { k } else { k + 1 };
    assert(s[i2] == x);
    assert(
        0 <= i1 < s.len() && 0 <= i2 < s.len() && i1 != i2 && s[i1] == x && s[i2] == x
    );
}

/// Law: the correctness tag travels with the answer value. If a sequence of
/// answers held exactly one correct option, at position `k`, then after any
/// reordering that preserves the multiset of answers — texts with their tags —
/// the reordered sequence again holds exactly one correct option, and every
/// correct option in it is the very answer originally tagged at `k`, its text
/// included, duplicate texts elsewhere notwithstanding.
pub proof fn lemma_correct_tag_stable(original: Seq<AnswerView>, shuffled: Seq<AnswerView>, k: int)
    requires
        is_correct_at(original, k),
        shuffled.to_multiset() == original.to_multiset(),
    ensures
        has_single_correct(shuffled),
        forall|i: int|
            0 <= i < shuffled.len() && shuffled[i].is_correct ==> shuffled[i] == original[k],
{
    broadcast use vstd::multiset::group_multiset_axioms;

    original.to_multiset_ensures();
    shuffled.to_multiset_ensures();
    assert forall|i: int|
        0 <= i < shuffled.len() && shuffled[i].is_correct implies shuffled[i] == original[k] by {
        assert(shuffled.contains(shuffled[i]));
        assert(original.to_multiset().count(shuffled[i]) > 0);
        assert(original.contains(shuffled[i]));
        let j = choose|j: int| 0 <= j < original.len() && original[j] == shuffled[i];
        assert(original[j].is_correct);
        assert(j == k);
    }
    assert(original.contains(original[k]));
    assert(shuffled.to_multiset().count(original[k]) > 0);
    assert(shuffled.contains(original[k]));
    let i0 = choose|i: int| 0 <= i < shuffled.len() && shuffled[i] == original[k];
    assert forall|i: int|
        0 <= i < shuffled.len() && i != i0 implies !shuffled[i].is_correct by {
        if shuffled[i].is_correct {
            assert(shuffled[i] == original[k]);
            lemma_two_indices_count_ge_two(shuffled, i, i0);
            assert(original.to_multiset().count(original[k]) >= 2);
            lemma_count_ge_two_two_indices(original, original[k]);
            let (j1, j2) = choose|j1: int, j2: int|
                0 <= j1 < original.len() && 0 <= j2 < original.len() && j1 != j2 && original[j1]
                    == original[k] && original[j2] == original[k];
            assert(original[j1].is_correct && original[j2].is_correct);
            assert(j1 == k && j2 == k);
            assert(false);
        }
    }
    assert(is_correct_at(shuffled, i0));
}

} // verus!
