use vstd::pervasive::VecAdditionalExecFns;
use vstd::prelude::*;

use crate::address::Address;
use crate::model::StateModel;
use crate::model::bump;
use crate::model::count_of;
use crate::model::default_greeting;
use crate::model::distinct_keys;
use crate::model::lemma_bump_absent;
use crate::model::lemma_bump_found;
use crate::model::lemma_bump_sum;
use crate::model::lemma_count_of_absent;
use crate::model::lemma_count_of_at;
use crate::model::spec_construct;
use crate::model::spec_update;
use crate::model::sum_counts;
use crate::uint256::U256;
use crate::uint256::u256_max;

verus! {

/// The record emitted to the host's append-only event log once per
/// successful greeting update, ordered after the state mutation.
#[derive(Debug)]
pub struct GreetingChange {
    pub greeting_setter: Address,
    pub new_greeting: String,
    pub premium: bool,
    pub value: U256,
}

/// An instruction to the host's atomic value-transfer primitive: send
/// `amount` to `to`.
#[derive(Clone, Copy, PartialEq, Eq, Structural, Debug)]
pub struct TransferOrder {
    pub to: Address,
    pub amount: U256,
}

/// The two call-fatal failures of the contract.  Either one aborts the
/// whole invocation; the host's transactional rollback discards any
/// partial effect.
#[derive(Clone, Copy, PartialEq, Eq, Structural, Debug)]
pub enum ContractError {
    /// `withdraw` was invoked by an address other than the owner.
    AuthorizationError,
    /// The host's value-transfer primitive reported failure during
    /// `withdraw`.
    TransferError,
}

/// The per-caller counter table as the model sees it: each held 256-bit
/// count replaced by its mathematical value.
pub open spec fn counters_view(v: Seq<(Address, U256)>) -> Seq<(Address, nat)> {
    v.map_values(|p: (Address, U256)| (p.0, p.1.as_nat()))
}

/// The whole persistent state of one deployed instance.
pub struct YourContract {
    owner: Address,
    greeting: String,
    premium: bool,
    total_counter: U256,
    user_greeting_counter: Vec<(Address, U256)>,
}

impl View for YourContract {
    type V = StateModel;

    closed spec fn view(&self) -> StateModel {
        StateModel {
            owner: self.owner,
            greeting: self.greeting@,
            premium: self.premium,
            total: self.total_counter.as_nat(),
            counters: counters_view(self.user_greeting_counter@),
        }
    }
}

/// The position of the first counter entry owned by `caller`, if any.
fn find_caller(v: &Vec<(Address, U256)>, caller: Address) -> (r: Option<usize>)
    ensures
        match r {
            Some(i) => i < v@.len() && v@[i as int].0 == caller && (forall|j: int|
                0 <= j < i ==> v@[j].0 != caller),
            None => forall|j: int| 0 <= j < v@.len() ==> v@[j].0 != caller,
        },
{
    let mut i: usize = 0;
    while i < v.len()
        invariant
            i <= v@.len(),
            forall|j: int| 0 <= j < i ==> v@[j].0 != caller,
        decreases v@.len() - i,
    {
        if v[i].0 == caller {
            return Some(i);
        }
        i = i + 1;
    }
    None
}

/// The fixed text every instance greets with until the first update.
pub fn default_greeting_text() -> (r: String)
    ensures
        r@ == default_greeting(),
{
    "Building Unstoppable Apps!!!".to_owned()
}

/// Maps the outcome reported by the host's value-transfer primitive to the
/// outcome of the whole `withdraw` invocation: success stays success, and a
/// failed transfer aborts the call with [`ContractError::TransferError`].
pub fn settle_withdraw(transfer_ok: bool) -> (r: Result<(), ContractError>)
    ensures
        transfer_ok ==> r == (Ok::<(), ContractError>(())),
        !transfer_ok ==> r == (Err::<(), ContractError>(ContractError::TransferError)),
{
    if transfer_ok {
        Ok(())
    } else {
        Err(ContractError::TransferError)
    }
}

impl YourContract {
    /// The table is a well-formed map (one entry per caller) and the total
    /// counter equals the sum of the per-caller counts; every entry point
    /// preserves this.
    pub open spec fn wf(&self) -> bool {
        &&& distinct_keys(self@.counters)
        &&& sum_counts(self@.counters) == self@.total
    }

    /// Assembles an instance from field values the caller already holds;
    /// the host wiring uses this to present the slice of stored state that
    /// one invocation touches.  The table must be a valid mapping, one
    /// entry per caller.
    pub fn from_parts(
        owner: Address,
        greeting: String,
        premium: bool,
        total_counter: U256,
        user_greeting_counter: Vec<(Address, U256)>,
    ) -> (r: YourContract)
        requires
            distinct_keys(counters_view(user_greeting_counter@)),
        ensures
            r@ == (StateModel {
                owner,
                greeting: greeting@,
                premium,
                total: total_counter.as_nat(),
                counters: counters_view(user_greeting_counter@),
            }),
    {
        let r = YourContract { owner, greeting, premium, total_counter, user_greeting_counter };
        proof {
            assert(r@ =~= (StateModel {
                owner,
                greeting: r.greeting@,
                premium,
                total: total_counter.as_nat(),
                counters: counters_view(r.user_greeting_counter@),
            }));
        }
        r
    }

    /// Initializes the instance: the owner is fixed to `owner`, the
    /// greeting to the default text, the premium flag to false, and both
    /// counters to zero.  The host invokes this exactly once per deployed
    /// instance, before any other entry point is reachable.
    pub fn constructor(&mut self, owner: Address)
        ensures
            final(self)@ == spec_construct(owner),
            final(self).wf(),
    {
        self.owner = owner;
        self.greeting = default_greeting_text();
        self.premium = false;
        self.total_counter = U256::zero();
        self.user_greeting_counter = Vec::new();
        proof {
            assert(counters_view(self.user_greeting_counter@) =~= Seq::<(Address, nat)>::empty());
            assert(self@ =~= spec_construct(owner));
        }
    }

    /// The current greeting text.
    pub fn get_greeting(&self) -> (r: String)
        ensures
            r@ == self@.greeting,
    {
        self.greeting.clone()
    }

    /// Whether the most recent update attached a positive value.
    pub fn get_premium(&self) -> (r: bool)
        ensures
            r == self@.premium,
    {
        self.premium
    }

    /// How many successful updates have ever been made.
    pub fn get_total_counter(&self) -> (r: U256)
        ensures
            r.as_nat() == self@.total,
    {
        self.total_counter
    }

    /// How many successful updates `caller` has ever made.
    pub fn get_user_greeting_counter(&self, caller: Address) -> (r: U256)
        ensures
            r.as_nat() == count_of(self@.counters, caller),
    {
        match find_caller(&self.user_greeting_counter, caller) {
            Some(i) => {
                proof {
                    assert forall|j: int| 0 <= j < i implies self@.counters[j].0 != caller by {
                        assert(self@.counters[j].0 == self.user_greeting_counter@[j].0);
                    }
                    lemma_count_of_at(self@.counters, caller, i as int);
                }
                self.user_greeting_counter[i].1
            },
            None => {
                proof {
                    assert forall|j: int|
                        0 <= j < self@.counters.len() implies self@.counters[j].0 != caller by {
                        assert(self@.counters[j].0 == self.user_greeting_counter@[j].0);
                    }
                    lemma_count_of_absent(self@.counters, caller);
                }
                U256::zero()
            },
        }
    }

    /// Replaces the greeting with `new_greeting`, counts the update both in
    /// total and against `caller`, and sets the premium flag exactly when
    /// the attached value is positive.  Any caller may do this; the
    /// returned record is what the host's event log receives.
    pub fn set_greeting(&mut self, new_greeting: String, caller: Address, attached_value: U256) -> (record:
        GreetingChange)
        requires
            distinct_keys(old(self)@.counters),
            old(self)@.total < u256_max(),
            count_of(old(self)@.counters, caller) < u256_max(),
        ensures
            final(self)@ == spec_update(
                old(self)@,
                caller,
                new_greeting@,
                attached_value.as_nat(),
            ),
            distinct_keys(final(self)@.counters),
            old(self).wf() ==> final(self).wf(),
            record.greeting_setter == caller,
            record.new_greeting@ == new_greeting@,
            record.premium == (attached_value.as_nat() > 0),
            record.value == attached_value,
    {
        let ghost old_counters = old(self)@.counters;
        self.greeting = new_greeting.clone();
        self.total_counter = self.total_counter.add_one();
        match find_caller(&self.user_greeting_counter, caller) {
            Some(i) => {
                let cur = self.user_greeting_counter[i].1;
                proof {
                    assert forall|j: int| 0 <= j < i implies old_counters[j].0 != caller by {
                        assert(old_counters[j].0 == self.user_greeting_counter@[j].0);
                    }
                    assert(old_counters[i as int].0 == caller);
                    assert(old_counters[i as int].1 == cur.as_nat());
                    lemma_count_of_at(old_counters, caller, i as int);
                    assert(cur.as_nat() < u256_max());
                    lemma_bump_found(old_counters, caller, i as int);
                }
                let next = cur.add_one();
                self.user_greeting_counter.set(i, (caller, next));
                proof {
                    let bumped = bump(old_counters, caller);
                    assert(counters_view(self.user_greeting_counter@) =~= bumped);
                    assert forall|a: int, b: int|
                        0 <= a < b < bumped.len() implies bumped[a].0 != bumped[b].0 by {
                        assert(bumped[a].0 == old_counters[a].0);
                        assert(bumped[b].0 == old_counters[b].0);
                    }
                }
            },
            None => {
                proof {
                    assert forall|j: int|
                        0 <= j < old_counters.len() implies old_counters[j].0 != caller by {
                        assert(old_counters[j].0 == self.user_greeting_counter@[j].0);
                    }
                    lemma_bump_absent(old_counters, caller);
                }
                self.user_greeting_counter.push((caller, U256::from_u64(1)));
                proof {
                    let bumped = bump(old_counters, caller);
                    assert(counters_view(self.user_greeting_counter@) =~= bumped);
                    assert forall|a: int, b: int|
                        0 <= a < b < bumped.len() implies bumped[a].0 != bumped[b].0 by {
                        if b < old_counters.len() {
                            assert(bumped[a].0 == old_counters[a].0);
                            assert(bumped[b].0 == old_counters[b].0);
                        } else {
                            assert(bumped[b].0 == caller);
                            assert(bumped[a].0 == old_counters[a].0);
                        }
                    }
                }
            },
        }
        let is_premium = !attached_value.is_zero();
        self.premium = is_premium;
        proof {
            lemma_bump_sum(old_counters, caller);
            assert(self@ =~= spec_update(
                old(self)@,
                caller,
                new_greeting@,
                attached_value.as_nat(),
            ));
        }
        GreetingChange { greeting_setter: caller, new_greeting, premium: is_premium, value: attached_value }
    }

    /// Decides a withdrawal request by `caller` while the instance holds
    /// `balance`.  Only the owner is authorized; an authorized request
    /// yields the order to transfer the entire held balance to the caller,
    /// and any other caller is refused with
    /// [`ContractError::AuthorizationError`] with all state untouched.
    pub fn withdraw(&self, caller: Address, balance: U256) -> (r: Result<
        TransferOrder,
        ContractError,
    >)
        ensures
            caller == self@.owner ==> r == (Ok::<TransferOrder, ContractError>(
                TransferOrder { to: caller, amount: balance },
            )),
            caller != self@.owner ==> r == (Err::<TransferOrder, ContractError>(
                ContractError::AuthorizationError,
            )),
    {
        if caller == self.owner {
            Ok(TransferOrder { to: caller, amount: balance })
        } else {
            Err(ContractError::AuthorizationError)
        }
    }
}

impl Default for YourContract {
    /// The storage-zero state a fresh instance holds before its
    /// constructor runs: everything zero or empty.
    fn default() -> (r: Self)
        ensures
            r@ == (StateModel {
                owner: Address { hi: 0, lo: 0 },
                greeting: Seq::<char>::empty(),
                premium: false,
                total: 0,
                counters: Seq::<(Address, nat)>::empty(),
            }),
            r.wf(),
    {
        let r = YourContract {
            owner: Address::zero(),
            greeting: String::new(),
            premium: false,
            total_counter: U256::zero(),
            user_greeting_counter: Vec::new(),
        };
        proof {
            assert(counters_view(r.user_greeting_counter@) =~= Seq::<(Address, nat)>::empty());
            assert(r@ =~= (StateModel {
                owner: Address { hi: 0, lo: 0 },
                greeting: Seq::<char>::empty(),
                premium: false,
                total: 0,
                counters: Seq::<(Address, nat)>::empty(),
            }));
        }
        r
    }
}

} // verus!
