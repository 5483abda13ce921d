//! The distribution ledger: a finite token supply, per-account balances, and
//! the recipient list, every mutation gated on the owner's identity.
//!
//! The ledger is an explicit value; the identity of the caller and the
//! identity of the owner come in from the hosting environment, which queries
//! them afresh for every mutating call and passes the caller in. A mutating
//! operation either completes in full or leaves the ledger exactly as it was.

use vstd::prelude::*;
use crate::account::account_id_is_valid;
use crate::account::valid_account;
use crate::audit::audit_line;
use crate::audit::render_audit_line;
use crate::balances::bal_of;
use crate::balances::credit;
use crate::balances::keys_unique;
use crate::balances::lemma_bal_le_sum;
use crate::balances::lemma_sum_nonneg;
use crate::balances::lookup;
use crate::balances::sum_of;
use crate::registry::all_valid;
use crate::registry::count_of;
use crate::registry::lemma_count_push;
use crate::registry::lemma_remove_first_absent;
use crate::registry::lemma_remove_first_at;
use crate::registry::lemma_remove_first_valid;
use crate::registry::names_of;
use crate::registry::position_of;
use crate::registry::remove_first;

verus! {

/// Why a mutating operation was refused. Every refusal leaves the ledger
/// untouched.
#[derive(Clone, Copy, Debug, PartialEq, Eq, Structural)]
pub enum LedgerError {
    /// The caller is not the owner.
    Unauthorized,
    /// The distribution asks for more tokens than the supply holds.
    InsufficientSupply,
    /// The identifier is not a well-formed account identifier.
    InvalidRecipient,
    /// The total to distribute does not fit the supply's integer width.
    Overflow,
}

/// The distribution ledger.
pub struct TokenSender {
    /// The identity allowed to mutate the ledger: the account under which
    /// this ledger instance is deployed.
    pub owner: String,
    /// Tokens still available for distribution.
    pub total_supply: u64,
    /// The amount ever credited to each account; an absent account holds
    /// zero. No two entries share an account.
    pub balances: Vec<(String, u64)>,
    /// The accounts credited by the next distribution, in credit order.
    /// Duplicates are allowed and are credited once per occurrence.
    pub recipients: Vec<String>,
}

impl TokenSender {
    /// The ledger's invariant: balance keys are unique, and what was ever
    /// credited plus what is still to distribute fits the integer width, so
    /// no credit can overflow a balance.
    pub open spec fn wf(self) -> bool {
        &&& keys_unique(self.balances@)
        &&& sum_of(self.balances@) + self.total_supply <= u64::MAX
    }

    /// The recipient names, in order.
    pub open spec fn recipient_names(self) -> Seq<Seq<char>> {
        names_of(self.recipients@)
    }

    /// The balance of `name`: zero when the account was never credited.
    pub open spec fn balance(self, name: Seq<char>) -> u64 {
        bal_of(self.balances@, name)
    }

    /// Every recipient on the list is a well-formed account identifier.
    pub open spec fn recipients_valid(self) -> bool {
        all_valid(self.recipient_names())
    }

    /// What one distribution of `amount` per recipient debits in total.
    pub open spec fn distribution_total(self, amount: u64) -> int {
        amount * self.recipients@.len()
    }

    /// The distribution total does not fit the supply's integer width.
    pub open spec fn send_overflows(self, amount: u64) -> bool {
        self.distribution_total(amount) > u64::MAX
    }

    /// The supply cannot cover the distribution total.
    pub open spec fn send_short(self, amount: u64) -> bool {
        !self.send_overflows(amount) && self.total_supply < self.distribution_total(amount)
    }

    /// The supply covers the distribution total.
    pub open spec fn send_covered(self, amount: u64) -> bool {
        !self.send_overflows(amount) && self.total_supply >= self.distribution_total(amount)
    }

    /// The successful-distribution relation: the supply drops by the total
    /// exactly once, every account's balance grows by `amount` for each of
    /// its occurrences on the recipient list, and owner and list are kept.
    pub open spec fn sent(pre: Self, amount: u64, post: Self) -> bool {
        &&& pre.distribution_total(amount) <= u64::MAX
        &&& pre.total_supply >= pre.distribution_total(amount)
        &&& post.total_supply == pre.total_supply - pre.distribution_total(amount)
        &&& post.owner@ == pre.owner@
        &&& post.recipients@ == pre.recipients@
        &&& forall|n: Seq<char>|
            #[trigger] post.balance(n) == pre.balance(n) + amount * count_of(
                pre.recipient_names(),
                n,
            )
    }

    /// A fresh ledger: the deployer sets the supply; nothing was credited
    /// yet and nobody is on the recipient list.
    pub fn new(owner: String, total_supply: u64) -> (ledger: Self)
        ensures
            ledger.wf(),
            ledger.owner@ == owner@,
            ledger.total_supply == total_supply,
            ledger.balances@.len() == 0,
            ledger.recipients@.len() == 0,
            ledger.recipients_valid(),
    {
        TokenSender { owner, total_supply, balances: Vec::new(), recipients: Vec::new() }
    }

    /// Distributes `amount` tokens to every recipient on the list, in list
    /// order, debiting the supply by `amount` times the list length exactly
    /// once. An empty list makes the call a successful no-op. On success the
    /// returned lines record each credit, in order; on any failure the
    /// ledger is left exactly as it was.
    ///
    /// Identifiers are validated once, when they join the list, so a
    /// distribution repeats no per-recipient validation and debits the
    /// supply and credits the balances as one indivisible step.
    pub fn send_tokens(&mut self, caller: &String, amount: u64) -> (r: Result<
        Vec<String>,
        LedgerError,
    >)
        requires
            old(self).wf(),
        ensures
            final(self).wf(),
            final(self).owner@ == old(self).owner@,
            final(self).recipients@ == old(self).recipients@,
            final(self).recipients_valid() == old(self).recipients_valid(),
            caller@ != old(self).owner@ ==> r == Err::<Vec<String>, LedgerError>(
                LedgerError::Unauthorized,
            ) && *final(self) == *old(self),
            caller@ == old(self).owner@ && old(self).send_overflows(amount) ==> r == Err::<
                Vec<String>,
                LedgerError,
            >(LedgerError::Overflow) && *final(self) == *old(self),
            caller@ == old(self).owner@ && old(self).send_short(amount) ==> r == Err::<
                Vec<String>,
                LedgerError,
            >(LedgerError::InsufficientSupply) && *final(self) == *old(self),
            caller@ == old(self).owner@ && old(self).send_covered(amount) ==> ({
                &&& Self::sent(*old(self), amount, *final(self))
                &&& r matches Ok(lines) && lines@.len() == old(self).recipients@.len()
                    && (forall|i: int|
                    0 <= i < lines@.len() ==> (#[trigger] lines@[i])@ == audit_line(
                        amount,
                        old(self).recipients@[i]@,
                    ))
            }),
    {
        let ghost pre = *self;
        if !(*caller == self.owner) {
            return Err(LedgerError::Unauthorized);
        }
        let count = self.recipients.len() as u64;
        let total = match amount.checked_mul(count) {
            Some(t) => t,
            None => {
                return Err(LedgerError::Overflow);
            },
        };
        if self.total_supply < total {
            return Err(LedgerError::InsufficientSupply);
        }
        self.total_supply = self.total_supply - total;
        let mut lines: Vec<String> = Vec::new();
        let n = self.recipients.len();
        let mut i: usize = 0;
        while i < n
            invariant
                pre == *old(self),
                pre.wf(),
                n == self.recipients@.len(),
                self.recipients@ == pre.recipients@,
                self.owner == pre.owner,
                i <= n,
                amount * n <= u64::MAX,
                pre.total_supply >= amount * n,
                self.total_supply == pre.total_supply - amount * n,
                keys_unique(self.balances@),
                sum_of(self.balances@) == sum_of(pre.balances@) + amount * i,
                forall|m: Seq<char>|
                    #[trigger] bal_of(self.balances@, m) == bal_of(pre.balances@, m) + amount
                        * count_of(names_of(pre.recipients@.subrange(0, i as int)), m),
                lines@.len() == i,
                forall|j: int|
                    0 <= j < i ==> (#[trigger] lines@[j])@ == audit_line(
                        amount,
                        pre.recipients@[j]@,
                    ),
            decreases n - i,
        {
            let recipient = &self.recipients[i];
            proof {
                lemma_bal_le_sum(self.balances@, recipient@);
                lemma_sum_nonneg(pre.balances@);
                assert(amount * i + amount <= amount * n) by (nonlinear_arith)
                    requires
                        0 <= amount,
                        0 <= i,
                        i + 1 <= n,
                ;
            }
            credit(&mut self.balances, recipient, amount);
            let line = render_audit_line(amount, recipient);
            lines.push(line);
            proof {
                let names_i = names_of(pre.recipients@.subrange(0, i as int));
                let names_i1 = names_of(pre.recipients@.subrange(0, i as int + 1));
                let rname = pre.recipients@[i as int]@;
                assert(names_i1 =~= names_i.push(rname));
                assert(amount * (i + 1) == amount * i + amount) by (nonlinear_arith);
                assert forall|m: Seq<char>|
                    #[trigger] bal_of(self.balances@, m) == bal_of(pre.balances@, m) + amount
                        * count_of(names_i1, m) by {
                    lemma_count_push(names_i, rname, m);
                    let c = count_of(names_i, m) as int;
                    assert(amount * (c + 1) == amount * c + amount) by (nonlinear_arith);
                }
            }
            i += 1;
        }
        proof {
            assert(pre.recipients@.subrange(0, n as int) =~= pre.recipients@);
            lemma_sum_nonneg(pre.balances@);
        }
        Ok(lines)
    }

    /// Appends `recipient` to the end of the recipient list, provided the
    /// caller is the owner and the identifier is well formed. No duplicate
    /// check is made: an identifier already on the list is appended again
    /// and will then be credited once per occurrence.
    pub fn add_recipient(&mut self, caller: &String, recipient: String) -> (r: Result<
        (),
        LedgerError,
    >)
        ensures
            final(self).owner@ == old(self).owner@,
            final(self).total_supply == old(self).total_supply,
            final(self).balances@ == old(self).balances@,
            final(self).wf() == old(self).wf(),
            caller@ != old(self).owner@ ==> r == Err::<(), LedgerError>(LedgerError::Unauthorized)
                && *final(self) == *old(self),
            caller@ == old(self).owner@ && !valid_account(recipient@) ==> r == Err::<
                (),
                LedgerError,
            >(LedgerError::InvalidRecipient) && *final(self) == *old(self),
            caller@ == old(self).owner@ && valid_account(recipient@) ==> r == Ok::<(), LedgerError>(
                (),
            ) && final(self).recipients@ == old(self).recipients@.push(recipient)
                && final(self).recipient_names() == old(self).recipient_names().push(recipient@),
            final(self).recipients_valid() == old(self).recipients_valid(),
    {
        if !(*caller == self.owner) {
            return Err(LedgerError::Unauthorized);
        }
        if !account_id_is_valid(&recipient) {
            return Err(LedgerError::InvalidRecipient);
        }
        let ghost pre_names = self.recipient_names();
        let ghost rname = recipient@;
        self.recipients.push(recipient);
        proof {
            assert(self.recipient_names() =~= pre_names.push(rname));
            assert forall|i: int|
                0 <= i < pre_names.len() implies #[trigger] pre_names[i] == self.recipient_names()[i] by {}
            if all_valid(pre_names) {
                assert forall|i: int|
                    0 <= i < self.recipient_names().len() implies valid_account(
                    #[trigger] self.recipient_names()[i]) by {
                    if i < pre_names.len() {
                        assert(self.recipient_names()[i] == pre_names[i]);
                    } else {
                        assert(self.recipient_names()[i] == rname);
                    }
                }
            }
            if all_valid(self.recipient_names()) {
                assert(all_valid(pre_names));
            }
        }
        Ok(())
    }

    /// Takes the first occurrence of `recipient` off the recipient list,
    /// keeping the order of the rest; a ledger whose list does not hold the
    /// identifier is left unchanged, and the call still succeeds.
    pub fn remove_recipient(&mut self, caller: &String, recipient: &String) -> (r: Result<
        (),
        LedgerError,
    >)
        ensures
            final(self).owner@ == old(self).owner@,
            final(self).total_supply == old(self).total_supply,
            final(self).balances@ == old(self).balances@,
            final(self).wf() == old(self).wf(),
            caller@ != old(self).owner@ ==> r == Err::<(), LedgerError>(LedgerError::Unauthorized)
                && *final(self) == *old(self),
            caller@ == old(self).owner@ ==> r == Ok::<(), LedgerError>(())
                && final(self).recipient_names() == remove_first(
                old(self).recipient_names(),
                recipient@,
            ),
            old(self).recipients_valid() ==> final(self).recipients_valid(),
    {
        if !(*caller == self.owner) {
            return Err(LedgerError::Unauthorized);
        }
        let ghost pre_names = self.recipient_names();
        proof {
            if all_valid(pre_names) {
                lemma_remove_first_valid(pre_names, recipient@);
            }
        }
        match position_of(&self.recipients, recipient) {
            Some(index) => {
                proof {
                    assert forall|j: int| 0 <= j < index as int implies pre_names[j] != recipient@ by {
                        assert(pre_names[j] == self.recipients@[j]@);
                    }
                    lemma_remove_first_at(pre_names, recipient@, index as int);
                }
                self.recipients.remove(index);
                proof {
                    assert(self.recipient_names() =~= pre_names.subrange(0, index as int)
                        + pre_names.subrange(index as int + 1, pre_names.len() as int));
                }
            },
            None => {
                proof {
                    assert forall|j: int| 0 <= j < pre_names.len() implies pre_names[j]
                        != recipient@ by {
                        assert(pre_names[j] == self.recipients@[j]@);
                    }
                    lemma_remove_first_absent(pre_names, recipient@);
                }
            },
        }
        Ok(())
    }

    /// A copy of the current recipient list, in order. Read-only: no
    /// ownership gate, and it never fails.
    pub fn get_recipients(&self) -> (r: Vec<String>)
        ensures
            r@ == self.recipients@,
    {
        let r = self.recipients.clone();
        proof {
            assert forall|i: int| 0 <= i < r@.len() implies #[trigger] r@[i]
                == self.recipients@[i] by {}
            assert(r@ =~= self.recipients@);
        }
        r
    }

    /// The balance of `account`: what was ever credited to it, zero when it
    /// was never credited. Read-only and never failing.
    pub fn balance_of(&self, account: &String) -> (r: u64)
        ensures
            r == self.balance(account@),
    {
        lookup(&self.balances, account)
    }
}

} // verus!
