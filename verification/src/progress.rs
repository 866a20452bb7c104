//! The rules by which a guess reveals conditions and orders the shown ones.

use vstd::prelude::*;
use crate::condition::holds;
use crate::condition::Condition;

verus! {

/// The guess `g` meets every member of `s`.
pub open spec fn all_hold(s: Seq<Condition>, g: int) -> bool {
    forall|i: int| 0 <= i < s.len() ==> holds(#[trigger] s[i], g)
}

/// The test that a condition is met by the guess `g`.
pub open spec fn met_by(g: int) -> spec_fn(Condition) -> bool {
    |c: Condition| holds(c, g)
}

/// The test that a condition is not met by the guess `g`.
pub open spec fn failed_by(g: int) -> spec_fn(Condition) -> bool {
    |c: Condition| !holds(c, g)
}

/// The place in `unseen` of its last member that `g` does not meet, or 0
/// where `g` meets them all.
pub open spec fn last_failing(unseen: Seq<Condition>, g: int) -> int
    decreases unseen.len(),
{
    if unseen.len() == 0 {
        0
    } else if !holds(unseen.last(), g) {
        unseen.len() - 1
    } else {
        last_failing(unseen.drop_last(), g)
    }
}

/// How many members of `unseen` stay unseen under the guess `g`. While a shown
/// condition fails nothing is revealed. Else conditions leave `unseen` from
/// its end, up to and with the first that `g` does not meet.
pub open spec fn kept(unseen: Seq<Condition>, seen: Seq<Condition>, g: int) -> int {
    if all_hold(seen, g) {
        last_failing(unseen, g)
    } else {
        unseen.len() as int
    }
}

/// The unseen and the shown conditions after the guess `g` has revealed what
/// it can: the revealed ones follow the shown ones, the last of `unseen`
/// first.
pub open spec fn revealed(unseen: Seq<Condition>, seen: Seq<Condition>, g: int) -> (
    Seq<Condition>,
    Seq<Condition>,
) {
    let k = kept(unseen, seen, g);
    (unseen.take(k), seen + unseen.skip(k).reverse())
}

/// `s` with the conditions that `g` fails put before those that it meets,
/// each group in the order it had.
pub open spec fn stable_partition(s: Seq<Condition>, g: int) -> Seq<Condition> {
    s.filter(failed_by(g)) + s.filter(met_by(g))
}

/// The place that the member of `s` at `i` takes in `stable_partition(s, g)`:
/// a failing one comes after the failing ones before it, a met one after all
/// failing ones and the met ones before it.
pub open spec fn place_after(s: Seq<Condition>, g: int, i: int) -> int {
    if holds(s[i], g) {
        (s.filter(failed_by(g)).len() + s.take(i).filter(met_by(g)).len()) as int
    } else {
        s.take(i).filter(failed_by(g)).len() as int
    }
}

/// The place of the last failing member is a place of `unseen`, every member
/// after it is met, and it is only 0 for want of a failing member.
pub proof fn lemma_last_failing(unseen: Seq<Condition>, g: int)
    ensures
        0 <= last_failing(unseen, g) <= unseen.len(),
        last_failing(unseen, g) < unseen.len() || unseen.len() == 0,
        forall|j: int| last_failing(unseen, g) < j < unseen.len() ==> holds(#[trigger] unseen[j], g),
        last_failing(unseen, g) > 0 ==> !holds(unseen[last_failing(unseen, g)], g),
        all_hold(unseen, g) ==> last_failing(unseen, g) == 0,
    decreases unseen.len(),
{
    if unseen.len() > 0 && holds(unseen.last(), g) {
        lemma_last_failing(unseen.drop_last(), g);
        assert forall|j: int| last_failing(unseen, g) < j < unseen.len() implies holds(
            #[trigger] unseen[j],
            g,
        ) by {
            if j < unseen.len() - 1 {
                assert(unseen[j] == unseen.drop_last()[j]);
            }
        }
        if all_hold(unseen, g) {
            assert(all_hold(unseen.drop_last(), g));
        }
    }
}

/// Revealing is what its loop does: while a condition is unseen and the guess
/// meets all that is shown, the last unseen one is shown next; else nothing
/// changes.
pub proof fn lemma_revealed_step(unseen: Seq<Condition>, seen: Seq<Condition>, g: int)
    ensures
        unseen.len() > 0 && all_hold(seen, g) ==> revealed(unseen, seen, g) == revealed(
            unseen.drop_last(),
            seen.push(unseen.last()),
            g,
        ),
        !(unseen.len() > 0 && all_hold(seen, g)) ==> revealed(unseen, seen, g) == (unseen, seen),
{
    if unseen.len() > 0 && all_hold(seen, g) {
        let more = seen.push(unseen.last());
        lemma_last_failing(unseen.drop_last(), g);
        if !holds(unseen.last(), g) {
            assert(!holds(more[more.len() - 1], g));
        }
    }
}

/// Revealing is strict. A condition is revealed only while the guess meets
/// all that was shown before it, so of the revealed ones only the last can
/// fail; and revealing goes on until nothing is unseen or a shown condition
/// fails.
pub proof fn lemma_reveal_is_strict(unseen: Seq<Condition>, seen: Seq<Condition>, g: int)
    ensures
        ({
            let (still_unseen, shown) = revealed(unseen, seen, g);
            &&& still_unseen.len() + shown.len() == unseen.len() + seen.len()
            &&& seen.len() <= shown.len()
            &&& seen == shown.take(seen.len() as int)
            &&& forall|n: int| seen.len() <= n < shown.len() ==> all_hold(#[trigger] shown.take(n), g)
            &&& still_unseen.len() == 0 || !all_hold(shown, g)
        }),
{
    let k = kept(unseen, seen, g);
    let (still_unseen, shown) = revealed(unseen, seen, g);
    lemma_last_failing(unseen, g);
    assert forall|n: int| seen.len() <= n < shown.len() implies all_hold(
        #[trigger] shown.take(n),
        g,
    ) by {
        assert forall|i: int| 0 <= i < n implies holds(#[trigger] shown.take(n)[i], g) by {}
    }
    if still_unseen.len() > 0 {
        if all_hold(seen, g) {
            assert(shown[shown.len() - 1] == unseen[k]);
        }
    }
}

/// Where `pred` holds of the member of `s` at `i`, the filtered sequence has
/// that member at the place that counts the kept members before `i`; and the
/// count of kept members before a place grows with the place.
pub proof fn lemma_filter_place(s: Seq<Condition>, pred: spec_fn(Condition) -> bool, i: int)
    requires
        0 <= i < s.len(),
    ensures
        s.take(i).filter(pred).len() <= s.take(i + 1).filter(pred).len() <= s.filter(pred).len(),
        pred(s[i]) ==> s.take(i).filter(pred).len() < s.take(i + 1).filter(pred).len(),
        pred(s[i]) ==> s.filter(pred)[s.take(i).filter(pred).len() as int] == s[i],
{
    let before = s.take(i);
    let after = s.skip(i + 1);
    assert(s.take(i + 1) =~= before.push(s[i]));
    before.lemma_filter_push(s[i], pred);
    assert(s =~= s.take(i + 1) + after);
    Seq::filter_distributes_over_add(s.take(i + 1), after, pred);
}

/// The count of kept members before a place does not fall as the place moves
/// on, and rises past a kept member.
pub proof fn lemma_filter_count_grows(
    s: Seq<Condition>,
    pred: spec_fn(Condition) -> bool,
    i: int,
    j: int,
)
    requires
        0 <= i < j <= s.len(),
    ensures
        s.take(i).filter(pred).len() <= s.take(j).filter(pred).len(),
        pred(s[i]) ==> s.take(i).filter(pred).len() < s.take(j).filter(pred).len(),
    decreases j - i,
{
    lemma_filter_place(s, pred, j - 1);
    if i < j - 1 {
        lemma_filter_count_grows(s, pred, i, j - 1);
    }
}

/// The partition is stable. Every member of `s` moves to its place in the
/// result; members that the guess fails alike, or meets alike, keep their
/// order; and every failing member comes before every met one.
pub proof fn lemma_stable_partition(s: Seq<Condition>, g: int)
    ensures
        stable_partition(s, g).len() == s.len(),
        forall|i: int|
            0 <= i < s.len() ==> 0 <= #[trigger] place_after(s, g, i) < s.len() && stable_partition(
                s,
                g,
            )[place_after(s, g, i)] == s[i],
        forall|i: int, j: int|
            0 <= i < j < s.len() && holds(s[i], g) == holds(s[j], g) ==> #[trigger] place_after(
                s,
                g,
                i,
            ) < #[trigger] place_after(s, g, j),
        forall|i: int, j: int|
            0 <= i < s.len() && 0 <= j < s.len() && !holds(s[i], g) && holds(s[j], g)
                ==> #[trigger] place_after(s, g, i) < #[trigger] place_after(s, g, j),
{
    let failing = s.filter(failed_by(g));
    let met = s.filter(met_by(g));
    lemma_partition_len(s, g);
    assert forall|i: int| 0 <= i < s.len() implies 0 <= #[trigger] place_after(s, g, i) < s.len()
        && stable_partition(s, g)[place_after(s, g, i)] == s[i] by {
        lemma_filter_place(s, failed_by(g), i);
        lemma_filter_place(s, met_by(g), i);
    }
    assert forall|i: int, j: int|
        0 <= i < j < s.len() && holds(s[i], g) == holds(s[j], g) implies #[trigger] place_after(
        s,
        g,
        i,
    ) < #[trigger] place_after(s, g, j) by {
        lemma_filter_count_grows(s, failed_by(g), i, j);
        lemma_filter_count_grows(s, met_by(g), i, j);
    }
    assert forall|i: int, j: int|
        0 <= i < s.len() && 0 <= j < s.len() && !holds(s[i], g) && holds(
            s[j],
            g,
        ) implies #[trigger] place_after(s, g, i) < #[trigger] place_after(s, g, j) by {
        lemma_filter_place(s, failed_by(g), i);
    }
}

/// Each member of `s` is in exactly one of the two groups of its partition.
pub proof fn lemma_partition_len(s: Seq<Condition>, g: int)
    ensures
        s.filter(failed_by(g)).len() + s.filter(met_by(g)).len() == s.len(),
    decreases s.len(),
{
    reveal(Seq::filter);
    if s.len() > 0 {
        lemma_partition_len(s.drop_last(), g);
    }
}

/// The partition holds the conditions of `s`, each as often as `s` does.
pub proof fn lemma_partition_keeps_members(s: Seq<Condition>, g: int)
    ensures
        stable_partition(s, g).to_multiset() == s.to_multiset(),
    decreases s.len(),
{
    broadcast use vstd::seq_lib::to_multiset_build;
    broadcast use vstd::seq_lib::lemma_multiset_commutative;

    if s.len() == 0 {
        reveal(Seq::filter);
    } else {
        let rest = s.drop_last();
        lemma_partition_keeps_members(rest, g);
        assert(s =~= rest.push(s.last()));
        rest.lemma_filter_push(s.last(), failed_by(g));
        rest.lemma_filter_push(s.last(), met_by(g));
    }
}

/// What holds of every member of `s` holds of every member of its partition.
pub proof fn lemma_members_of_partition(s: Seq<Condition>, g: int, n: int)
    requires
        all_hold(s, n),
    ensures
        all_hold(stable_partition(s, g), n),
{
    let parted = stable_partition(s, g);
    lemma_partition_keeps_members(s, g);
    assert forall|i: int| 0 <= i < parted.len() implies holds(#[trigger] parted[i], n) by {
        vstd::seq_lib::to_multiset_contains(parted, parted[i]);
        vstd::seq_lib::to_multiset_contains(s, parted[i]);
    }
}

/// In the partition the failing conditions come first: up to their number
/// every member fails the guess, from there on every member meets it.
pub proof fn lemma_partition_groups(s: Seq<Condition>, g: int)
    ensures
        forall|n: int|
            0 <= n < s.len() ==> (holds(#[trigger] stable_partition(s, g)[n], g) <==> n >= s.filter(
                failed_by(g),
            ).len()),
{
    lemma_partition_len(s, g);
    assert forall|n: int| 0 <= n < s.len() implies (holds(#[trigger] stable_partition(s, g)[n], g)
        <==> n >= s.filter(failed_by(g)).len()) by {
        let failing = s.filter(failed_by(g));
        if n < failing.len() {
            s.lemma_filter_pred(failed_by(g), n);
        } else {
            s.lemma_filter_pred(met_by(g), n - failing.len());
        }
    }
}

/// Whether `guess` meets every member of `conditions`.
pub fn all_met(conditions: &Vec<Condition>, guess: i32) -> (met: bool)
    ensures
        met == all_hold(conditions@, guess as int),
{
    let mut i: usize = 0;
    while i < conditions.len()
        invariant
            i <= conditions.len(),
            forall|j: int| 0 <= j < i ==> holds(#[trigger] conditions@[j], guess as int),
        decreases conditions.len() - i,
    {
        if !conditions[i].check(guess) {
            return false;
        }
        i += 1;
    }
    true
}

/// Moves conditions from the end of `unseen` to the end of `seen` for as long
/// as one is unseen and `guess` meets all that is shown.
pub fn show_more(unseen: &mut Vec<Condition>, seen: &mut Vec<Condition>, guess: i32)
    ensures
        (final(unseen)@, final(seen)@) == revealed(old(unseen)@, old(seen)@, guess as int),
{
    while unseen.len() > 0 && all_met(seen, guess)
        invariant
            revealed(unseen@, seen@, guess as int) == revealed(
                old(unseen)@,
                old(seen)@,
                guess as int,
            ),
        decreases unseen.len(),
    {
        proof {
            lemma_revealed_step(unseen@, seen@, guess as int);
        }
        let next = unseen.pop().unwrap();
        seen.push(next);
    }
    proof {
        lemma_revealed_step(unseen@, seen@, guess as int);
    }
}

/// Puts the conditions that `guess` fails before those that it meets, and
/// keeps the order within each group.
pub fn put_failing_first(seen: &mut Vec<Condition>, guess: i32)
    ensures
        final(seen)@ == stable_partition(old(seen)@, guess as int),
{
    let ghost start = seen@;
    let ghost fails = failed_by(guess as int);
    let ghost meets = met_by(guess as int);
    let mut failing: usize = 0;
    let mut i: usize = 0;
    proof {
        reveal(Seq::filter);
    }
    while i < seen.len()
        invariant
            i <= seen.len() == start.len(),
            fails == failed_by(guess as int),
            meets == met_by(guess as int),
            failing == start.take(i as int).filter(fails).len(),
            seen@ == start.take(i as int).filter(fails) + start.take(i as int).filter(meets)
                + start.skip(i as int),
        decreases seen.len() - i,
    {
        proof {
            lemma_partition_len(start.take(i as int), guess as int);
            assert(start.take(i + 1) =~= start.take(i as int).push(start[i as int]));
            start.take(i as int).lemma_filter_push(start[i as int], fails);
            start.take(i as int).lemma_filter_push(start[i as int], meets);
        }
        if !seen[i].check(guess) {
            let moved = seen.remove(i);
            seen.insert(failing, moved);
            failing += 1;
        }
        i += 1;
    }
}

} // verus!
