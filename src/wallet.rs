//! The wallet ledger: one balance per account.
use vstd::prelude::*;

use crate::fixed::{fits_i128, Fixed};

verus! {

/// Balance of the distinguished `exchange` account at start (10 000 000).
pub const EXCHANGE_SEED: i128 = 1_000_000_000_000_000;

/// Balance an unknown account receives on its first debit (1 000 000).
pub const ACCOUNT_SEED: i128 = 100_000_000_000_000;

/// The reply to a debit request.
pub struct WalletOneshotReply {
    pub success: bool,
    pub message: String,
}

/// One account's balance.
#[derive(Debug)]
pub struct Balance {
    pub wallet_id: String,
    pub amount: Fixed,
}

pub open spec fn holds_wallet(s: Seq<Balance>, id: Seq<char>) -> bool {
    exists|i: int| 0 <= i < s.len() && (#[trigger] s[i]).wallet_id@ == id
}

pub open spec fn wallet_index(s: Seq<Balance>, id: Seq<char>) -> int {
    choose|i: int| 0 <= i < s.len() && (#[trigger] s[i]).wallet_id@ == id
}

/// The balance of account `id`, if the ledger knows it.
pub open spec fn balance_of(s: Seq<Balance>, id: Seq<char>) -> Option<Fixed> {
    if holds_wallet(s, id) {
        Some(s[wallet_index(s, id)].amount)
    } else {
        None
    }
}

pub open spec fn wallets_unique(s: Seq<Balance>) -> bool {
    forall|i: int, j: int|
        0 <= i < s.len() && 0 <= j < s.len() && i != j ==> (#[trigger] s[i]).wallet_id@
            != (#[trigger] s[j]).wallet_id@
}

/// Whether a debit of `amount` from a balance `b` goes through: the balance
/// covers it.
pub open spec fn debit_allowed(b: Fixed, amount: Fixed) -> bool {
    b.units >= amount.units && fits_i128(b.units - amount.units)
}

proof fn lemma_wallet_index(s: Seq<Balance>, id: Seq<char>, i: int)
    requires
        wallets_unique(s),
        0 <= i < s.len(),
        s[i].wallet_id@ == id,
    ensures
        holds_wallet(s, id),
        wallet_index(s, id) == i,
{
    assert(holds_wallet(s, id));
}

proof fn lemma_balance_update(s: Seq<Balance>, i: int, b: Balance, v: Seq<char>)
    requires
        wallets_unique(s),
        0 <= i < s.len(),
        b.wallet_id@ == s[i].wallet_id@,
    ensures
        wallets_unique(s.update(i, b)),
        balance_of(s.update(i, b), v) == if v == b.wallet_id@ {
            Some(b.amount)
        } else {
            balance_of(s, v)
        },
{
    let q = s.update(i, b);
    assert(wallets_unique(q));
    if v == b.wallet_id@ {
        lemma_wallet_index(q, v, i);
    } else if holds_wallet(s, v) {
        let j = wallet_index(s, v);
        lemma_wallet_index(q, v, j);
    } else {
        assert(!holds_wallet(q, v)) by {
            if holds_wallet(q, v) {
                let j = wallet_index(q, v);
                assert(q[j] == s[j]);
            }
        }
    }
}

proof fn lemma_balance_push(s: Seq<Balance>, b: Balance, v: Seq<char>)
    requires
        wallets_unique(s),
        !holds_wallet(s, b.wallet_id@),
    ensures
        wallets_unique(s.push(b)),
        balance_of(s.push(b), v) == if v == b.wallet_id@ {
            Some(b.amount)
        } else {
            balance_of(s, v)
        },
{
    let q = s.push(b);
    assert(wallets_unique(q));
    if v == b.wallet_id@ {
        lemma_wallet_index(q, v, s.len() as int);
    } else if holds_wallet(s, v) {
        let j = wallet_index(s, v);
        lemma_wallet_index(q, v, j);
    } else {
        assert(!holds_wallet(q, v)) by {
            if holds_wallet(q, v) {
                let j = wallet_index(q, v);
                assert(q[j] == s[j]);
            }
        }
    }
}

pub struct WalletManager {
    balance_map: Vec<Balance>,
}

impl View for WalletManager {
    type V = Seq<Balance>;

    closed spec fn view(&self) -> Seq<Balance> {
        self.balance_map@
    }
}

impl WalletManager {
    pub open spec fn wf(&self) -> bool {
        wallets_unique(self@)
    }

    /// A ledger holding only the `exchange` account, seeded with
    /// `EXCHANGE_SEED`.
    pub fn new() -> (r: WalletManager)
        ensures
            r.wf(),
            balance_of(r@, "exchange"@) == Some(Fixed { units: EXCHANGE_SEED }),
            forall|v: Seq<char>| v != "exchange"@ ==> balance_of(r@, v) is None,
    {
        let mut balance_map: Vec<Balance> = Vec::new();
        balance_map.push(
            Balance { wallet_id: "exchange".to_string(), amount: Fixed { units: EXCHANGE_SEED } },
        );
        proof {
            reveal_strlit("exchange");
            lemma_balance_push(Seq::empty(), balance_map@[0], "exchange"@);
            assert forall|v: Seq<char>| v != "exchange"@ implies balance_of(balance_map@, v) is None by {
                lemma_balance_push(Seq::empty(), balance_map@[0], v);
            }
        }
        WalletManager { balance_map }
    }

    fn find(&self, wallet_id: &String) -> (r: Option<usize>)
        requires
            self.wf(),
        ensures
            match r {
                Some(i) => i < self@.len() && self@[i as int].wallet_id@ == wallet_id@
                    && wallet_index(self@, wallet_id@) == i,
                None => !holds_wallet(self@, wallet_id@),
            },
    {
        let mut i: usize = 0;
        while i < self.balance_map.len()
            invariant
                i <= self@.len(),
                wallets_unique(self@),
                forall|j: int| 0 <= j < i ==> (#[trigger] self@[j]).wallet_id@ != wallet_id@,
            decreases self@.len() - i,
        {
            if self.balance_map[i].wallet_id == *wallet_id {
                proof {
                    lemma_wallet_index(self@, wallet_id@, i as int);
                }
                return Some(i);
            }
            i = i + 1;
        }
        None
    }

    /// Takes `amount` from account `wallet_id` if its balance covers it. An
    /// unknown account is first opened with `ACCOUNT_SEED`, whether or not
    /// the debit then succeeds. Other accounts are unchanged.
    pub fn debit(&mut self, wallet_id: String, amount: Fixed) -> (r: bool)
        requires
            old(self).wf(),
        ensures
            final(self).wf(),
            ({
                let before = match balance_of(old(self)@, wallet_id@) {
                    Some(b) => b,
                    None => Fixed { units: ACCOUNT_SEED },
                };
                &&& r == debit_allowed(before, amount)
                &&& balance_of(final(self)@, wallet_id@) == Some(
                    if r {
                        Fixed { units: (before.units - amount.units) as i128 }
                    } else {
                        before
                    },
                )
            }),
            forall|v: Seq<char>| v != wallet_id@ ==> balance_of(final(self)@, v) == balance_of(old(self)@, v),
    {
        let idx = match self.find(&wallet_id) {
            Some(i) => i,
            None => {
                let ghost s0 = self@;
                let entry = Balance { wallet_id: wallet_id.clone(), amount: Fixed { units: ACCOUNT_SEED } };
                self.balance_map.push(entry);
                proof {
                    assert forall|v: Seq<char>| true implies balance_of(self@, v) == if v == wallet_id@ {
                        Some(Fixed { units: ACCOUNT_SEED })
                    } else {
                        balance_of(s0, v)
                    } by {
                        lemma_balance_push(s0, self@.last(), v);
                    }
                }
                self.balance_map.len() - 1
            },
        };
        let ghost s1 = self@;
        proof {
            lemma_wallet_index(s1, wallet_id@, idx as int);
        }
        let balance = self.balance_map[idx].amount;
        if balance.units >= amount.units {
            match balance.units.checked_sub(amount.units) {
                Some(rest) => {
                    let entry = Balance { wallet_id, amount: Fixed { units: rest } };
                    self.balance_map.set(idx, entry);
                    proof {
                        assert forall|v: Seq<char>| true implies balance_of(self@, v) == if v == s1[idx as int].wallet_id@ {
                            Some(Fixed { units: rest })
                        } else {
                            balance_of(s1, v)
                        } by {
                            lemma_balance_update(s1, idx as int, self@[idx as int], v);
                        }
                        lemma_balance_update(s1, idx as int, self@[idx as int], s1[idx as int].wallet_id@);
                    }
                    true
                },
                None => false,
            }
        } else {
            false
        }
    }

    /// Adds `amount` to account `wallet_id`. Nothing happens for an unknown
    /// account, or when the sum would not fit.
    pub fn credit(&mut self, wallet_id: String, amount: Fixed)
        requires
            old(self).wf(),
        ensures
            final(self).wf(),
            balance_of(final(self)@, wallet_id@) == match balance_of(old(self)@, wallet_id@) {
                Some(b) => if fits_i128(b.units + amount.units) {
                    Some(Fixed { units: (b.units + amount.units) as i128 })
                } else {
                    Some(b)
                },
                None => None,
            },
            forall|v: Seq<char>| v != wallet_id@ ==> balance_of(final(self)@, v) == balance_of(old(self)@, v),
    {
        if let Some(idx) = self.find(&wallet_id) {
            let ghost s1 = self@;
            let balance = self.balance_map[idx].amount;
            if let Some(sum) = balance.units.checked_add(amount.units) {
                let entry = Balance { wallet_id, amount: Fixed { units: sum } };
                self.balance_map.set(idx, entry);
                proof {
                    assert forall|v: Seq<char>| true implies balance_of(self@, v) == if v == s1[idx as int].wallet_id@ {
                        Some(Fixed { units: sum })
                    } else {
                        balance_of(s1, v)
                    } by {
                        lemma_balance_update(s1, idx as int, self@[idx as int], v);
                    }
                }
            }
        }
    }

    /// The balance of account `wallet_id`, if the ledger knows it.
    pub fn get_balance(&self, wallet_id: &String) -> (r: Option<Fixed>)
        requires
            self.wf(),
        ensures
            r == balance_of(self@, wallet_id@),
    {
        match self.find(wallet_id) {
            Some(i) => Some(self.balance_map[i].amount),
            None => None,
        }
    }
}

} // verus!
