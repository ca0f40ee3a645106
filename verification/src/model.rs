use vstd::prelude::*;

use crate::address::Address;

verus! {

/// The mathematical state of one deployed instance: the owner fixed at
/// construction, the current greeting, the premium flag of the most recent
/// update, the total number of updates, and one `(caller, count)` entry per
/// caller that has ever updated the greeting.
#[verifier::ext_equal]
pub ghost struct StateModel {
    pub owner: Address,
    pub greeting: Seq<char>,
    pub premium: bool,
    pub total: nat,
    pub counters: Seq<(Address, nat)>,
}

/// The greeting installed at construction.
pub open spec fn default_greeting() -> Seq<char> {
    "Building Unstoppable Apps!!!"@
}

/// The state immediately after construction by `owner`.
pub open spec fn spec_construct(owner: Address) -> StateModel {
    StateModel {
        owner,
        greeting: default_greeting(),
        premium: false,
        total: 0,
        counters: Seq::empty(),
    }
}

/// The per-caller table after one more update by `caller`: the first entry
/// with that caller is incremented, or a fresh entry with count 1 is
/// appended when none exists.
pub open spec fn bump(s: Seq<(Address, nat)>, caller: Address) -> Seq<(Address, nat)>
    decreases s.len(),
{
    if s.len() == 0 {
        seq![(caller, 1nat)]
    } else if s[0].0 == caller {
        seq![(s[0].0, (s[0].1 + 1) as nat)] + s.skip(1)
    } else {
        seq![s[0]] + bump(s.skip(1), caller)
    }
}

/// The count recorded for `caller`, or 0 when no entry exists.
pub open spec fn count_of(s: Seq<(Address, nat)>, caller: Address) -> nat
    decreases s.len(),
{
    if s.len() == 0 {
        0
    } else if s[0].0 == caller {
        s[0].1
    } else {
        count_of(s.skip(1), caller)
    }
}

/// The sum of all per-caller counts.
pub open spec fn sum_counts(s: Seq<(Address, nat)>) -> nat
    decreases s.len(),
{
    if s.len() == 0 {
        0
    } else {
        (s[0].1 + sum_counts(s.skip(1))) as nat
    }
}

/// Whether each caller owns at most one entry of the table.
pub open spec fn distinct_keys(s: Seq<(Address, nat)>) -> bool {
    forall|i: int, j: int| 0 <= i < j < s.len() ==> s[i].0 != s[j].0
}

/// The state after one successful update: the greeting is replaced, the
/// premium flag mirrors the attached value alone, both counters grow by
/// one, and the owner is untouched.
pub open spec fn spec_update(
    s: StateModel,
    caller: Address,
    text: Seq<char>,
    value: nat,
) -> StateModel {
    StateModel {
        owner: s.owner,
        greeting: text,
        premium: value > 0,
        total: (s.total + 1) as nat,
        counters: bump(s.counters, caller),
    }
}

/// The state after a whole sequence of updates, each given as
/// `(caller, text, value)`, applied in order.
pub open spec fn apply_updates(s: StateModel, calls: Seq<(Address, Seq<char>, nat)>) -> StateModel
    decreases calls.len(),
{
    if calls.len() == 0 {
        s
    } else {
        apply_updates(spec_update(s, calls[0].0, calls[0].1, calls[0].2), calls.skip(1))
    }
}

/// One update adds exactly one to the sum of the per-caller counts.
pub proof fn lemma_bump_sum(s: Seq<(Address, nat)>, caller: Address)
    ensures
        sum_counts(bump(s, caller)) == sum_counts(s) + 1,
    decreases s.len(),
{
    if s.len() == 0 {
        let t = seq![(caller, 1nat)];
        assert(bump(s, caller) == t);
        assert(t.skip(1) =~= Seq::<(Address, nat)>::empty());
        assert(sum_counts(t.skip(1)) == 0);
        assert(t[0] == (caller, 1nat));
        assert(sum_counts(t) == (t[0].1 + sum_counts(t.skip(1))) as nat);
    } else if s[0].0 == caller {
        let t = seq![(s[0].0, (s[0].1 + 1) as nat)] + s.skip(1);
        assert(bump(s, caller) == t);
        assert(t.skip(1) =~= s.skip(1));
        assert(t[0] == (s[0].0, (s[0].1 + 1) as nat));
        assert(sum_counts(t) == (t[0].1 + sum_counts(t.skip(1))) as nat);
    } else {
        let t = seq![s[0]] + bump(s.skip(1), caller);
        assert(bump(s, caller) == t);
        lemma_bump_sum(s.skip(1), caller);
        assert(t.skip(1) =~= bump(s.skip(1), caller));
        assert(t[0] == s[0]);
        assert(t.len() > 0);
        assert(sum_counts(t) == (t[0].1 + sum_counts(t.skip(1))) as nat);
    }
}

/// When `caller` owns the entry at position `i` and no earlier one, its
/// recorded count is the count at that position.
pub proof fn lemma_count_of_at(s: Seq<(Address, nat)>, caller: Address, i: int)
    requires
        0 <= i < s.len(),
        s[i].0 == caller,
        forall|j: int| 0 <= j < i ==> s[j].0 != caller,
    ensures
        count_of(s, caller) == s[i].1,
    decreases i,
{
    if i == 0 {
    } else {
        assert(s[0].0 != caller);
        assert(forall|j: int| 0 <= j < i - 1 ==> s.skip(1)[j].0 != caller);
        lemma_count_of_at(s.skip(1), caller, i - 1);
    }
}

/// A caller without an entry has count 0.
pub proof fn lemma_count_of_absent(s: Seq<(Address, nat)>, caller: Address)
    requires
        forall|j: int| 0 <= j < s.len() ==> s[j].0 != caller,
    ensures
        count_of(s, caller) == 0,
    decreases s.len(),
{
    if s.len() == 0 {
    } else {
        assert(s[0].0 != caller);
        assert(forall|j: int| 0 <= j < s.skip(1).len() ==> s.skip(1)[j].0 != caller);
        lemma_count_of_absent(s.skip(1), caller);
    }
}

/// When `caller` owns the entry at position `i` and no earlier one, the
/// update rewrites exactly that entry.
pub proof fn lemma_bump_found(s: Seq<(Address, nat)>, caller: Address, i: int)
    requires
        0 <= i < s.len(),
        s[i].0 == caller,
        forall|j: int| 0 <= j < i ==> s[j].0 != caller,
    ensures
        bump(s, caller) =~= s.update(i, (caller, (s[i].1 + 1) as nat)),
    decreases i,
{
    if i == 0 {
        assert(bump(s, caller) =~= s.update(0, (caller, (s[0].1 + 1) as nat)));
    } else {
        assert(s[0].0 != caller);
        assert(forall|j: int| 0 <= j < i - 1 ==> s.skip(1)[j].0 != caller);
        lemma_bump_found(s.skip(1), caller, i - 1);
        assert(bump(s, caller) =~= s.update(i, (caller, (s[i].1 + 1) as nat)));
    }
}

/// A caller without an entry gets a fresh entry with count 1 at the end.
pub proof fn lemma_bump_absent(s: Seq<(Address, nat)>, caller: Address)
    requires
        forall|j: int| 0 <= j < s.len() ==> s[j].0 != caller,
    ensures
        bump(s, caller) =~= s.push((caller, 1nat)),
    decreases s.len(),
{
    if s.len() == 0 {
    } else {
        assert(s[0].0 != caller);
        assert(forall|j: int| 0 <= j < s.skip(1).len() ==> s.skip(1)[j].0 != caller);
        lemma_bump_absent(s.skip(1), caller);
        assert(bump(s, caller) =~= s.push((caller, 1nat)));
    }
}

/// Law: starting from a fresh state, any sequence of `N` successful updates
/// leaves the total counter at exactly `N`, leaves the per-caller counts
/// summing to exactly `N`, and never moves the owner.
pub proof fn lemma_updates_count(owner: Address, calls: Seq<(Address, Seq<char>, nat)>)
    ensures
        apply_updates(spec_construct(owner), calls).total == calls.len(),
        sum_counts(apply_updates(spec_construct(owner), calls).counters) == calls.len(),
        apply_updates(spec_construct(owner), calls).owner == owner,
{
    lemma_updates_count_from(spec_construct(owner), calls);
}

/// The inductive core of [`lemma_updates_count`], stated from an arbitrary
/// starting state.
pub proof fn lemma_updates_count_from(s: StateModel, calls: Seq<(Address, Seq<char>, nat)>)
    ensures
        apply_updates(s, calls).total == s.total + calls.len(),
        sum_counts(apply_updates(s, calls).counters) == sum_counts(s.counters) + calls.len(),
        apply_updates(s, calls).owner == s.owner,
    decreases calls.len(),
{
    if calls.len() == 0 {
    } else {
        lemma_bump_sum(s.counters, calls[0].0);
        lemma_updates_count_from(
            spec_update(s, calls[0].0, calls[0].1, calls[0].2),
            calls.skip(1),
        );
    }
}

/// Law: after any non-empty sequence of updates, the premium flag reflects
/// the attached value of the last update alone, whatever came before.
pub proof fn lemma_premium_reflects_last(s: StateModel, calls: Seq<(Address, Seq<char>, nat)>)
    requires
        calls.len() > 0,
    ensures
        apply_updates(s, calls).premium == (calls.last().2 > 0),
    decreases calls.len(),
{
    if calls.len() == 1 {
        let stepped = spec_update(s, calls[0].0, calls[0].1, calls[0].2);
        assert(calls.skip(1).len() == 0);
        assert(apply_updates(stepped, calls.skip(1)) == stepped);
        assert(apply_updates(s, calls) == stepped);
    } else {
        lemma_premium_reflects_last(
            spec_update(s, calls[0].0, calls[0].1, calls[0].2),
            calls.skip(1),
        );
        assert(calls.skip(1).last() == calls.last());
    }
}

} // verus!
