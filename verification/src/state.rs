use vstd::prelude::*;

use crate::store::{AddrPair, AssocMap, MapKey};

verus! {

/// Ten to the given power.
pub open spec fn pow10(n: nat) -> nat
    decreases n,
{
    if n == 0 {
        1
    } else {
        10 * pow10((n - 1) as nat)
    }
}

pub proof fn lemma_pow10_pos(n: nat)
    ensures
        pow10(n) >= 1,
    decreases n,
{
    if n > 0 {
        lemma_pow10_pos((n - 1) as nat);
    }
}

pub proof fn lemma_pow10_mono(m: nat, n: nat)
    requires
        m <= n,
    ensures
        pow10(m) <= pow10(n),
    decreases n,
{
    if m < n && n > 0 {
        lemma_pow10_mono(m, (n - 1) as nat);
        lemma_pow10_pos((n - 1) as nat);
    }
}

/// The sum of the values of a balance table.
pub open spec fn sum_vals(s: Seq<(String, u128)>) -> int
    decreases s.len(),
{
    if s.len() == 0 {
        0
    } else {
        sum_vals(s.drop_last()) + s.last().1
    }
}

pub proof fn lemma_sum_remove(s: Seq<(String, u128)>, i: int)
    requires
        0 <= i < s.len(),
    ensures
        sum_vals(s.remove(i)) == sum_vals(s) - s[i].1,
    decreases s.len(),
{
    if i == s.len() - 1 {
        assert(s.remove(i) =~= s.drop_last());
    } else {
        lemma_sum_remove(s.drop_last(), i);
        assert(s.remove(i).drop_last() =~= s.drop_last().remove(i));
        assert(s.remove(i).last() == s.last());
        assert(s.drop_last()[i] == s[i]);
    }
}

pub proof fn lemma_sum_push(s: Seq<(String, u128)>, p: (String, u128))
    ensures
        sum_vals(s.push(p)) == sum_vals(s) + p.1,
{
    assert(s.push(p).drop_last() =~= s);
}

pub proof fn lemma_sum_nonneg(s: Seq<(String, u128)>)
    ensures
        sum_vals(s) >= 0,
    decreases s.len(),
{
    if s.len() > 0 {
        lemma_sum_nonneg(s.drop_last());
    }
}

pub proof fn lemma_sum_entry(s: Seq<(String, u128)>, i: int)
    requires
        0 <= i < s.len(),
    ensures
        s[i].1 <= sum_vals(s),
{
    lemma_sum_remove(s, i);
    lemma_sum_nonneg(s.remove(i));
}

/// Two distinct entries together never exceed the total.
pub proof fn lemma_sum_two(s: Seq<(String, u128)>, i: int, j: int)
    requires
        0 <= i < s.len(),
        0 <= j < s.len(),
        i != j,
    ensures
        s[i].1 + s[j].1 <= sum_vals(s),
{
    lemma_sum_remove(s, i);
    let s2 = s.remove(i);
    let j2: int = if j < i {
        j
    } else {
        j - 1
    };
    assert(s2[j2] == s[j]);
    lemma_sum_entry(s2, j2);
}

/// The balance a table assigns to an identity; unknown identities hold zero.
pub open spec fn bal_in(m: Map<Seq<char>, u128>, a: Seq<char>) -> u128 {
    if m.contains_key(a) {
        m[a]
    } else {
        0
    }
}

/// The whole persistent state of the hybrid ledger engine: fractional
/// balances, the enumerable whole-token ownership sets with their reverse
/// index, and the authorization tables, all as one explicit value.
#[derive(Debug)]
pub struct Ledger {
    /// The administrative owner of the contract.
    pub owner: String,
    pub name: String,
    pub symbol: String,
    pub base_token_uri: String,
    /// The number of fractional digits; the unit size is ten to this power.
    pub decimals: u8,
    /// Immutable after creation; equals the sum of all balances.
    pub total_supply: u128,
    /// Count of whole tokens ever created; never decreases.
    pub minted: u128,
    /// Fractional balance per identity.
    pub balances: AssocMap<String, u128>,
    /// Current owner of each live whole token.
    pub owner_of: AssocMap<u128, String>,
    /// Per identity, the ids it owns, in insertion order.
    pub owned: AssocMap<String, Vec<u128>>,
    /// Position of each live id inside its owner's sequence.
    pub owned_index: AssocMap<u128, u128>,
    /// Single approved spender per token; cleared on every transfer.
    pub get_approved: AssocMap<u128, String>,
    /// Blanket operator grants per (owner, operator).
    pub approved_for_all: AssocMap<AddrPair, bool>,
    /// Remaining fractional allowance per (owner, spender).
    pub allowance: AssocMap<AddrPair, u128>,
    /// While set, the identity's balance changes mint and burn nothing.
    pub whitelist: AssocMap<String, bool>,
    /// While set, burning the token is forbidden.
    pub locked: AssocMap<u128, bool>,
}

impl Ledger {
    /// The unit size: how many fractional units one whole token stands for.
    pub open spec fn spec_unit(&self) -> int {
        pow10(self.decimals as nat) as int
    }

    pub open spec fn bal_of(&self, a: Seq<char>) -> u128 {
        bal_in(self.balances@, a)
    }

    pub open spec fn owned_of(&self, a: Seq<char>) -> Seq<u128> {
        if self.owned@.contains_key(a) {
            self.owned@[a]@
        } else {
            Seq::empty()
        }
    }

    /// The owner of a token id, the empty identity when the id is not live.
    pub open spec fn owner_str_of(&self, id: u128) -> Seq<char> {
        if self.owner_of@.contains_key(id) {
            self.owner_of@[id]@
        } else {
            Seq::empty()
        }
    }

    pub open spec fn approved_of(&self, id: u128) -> Seq<char> {
        if self.get_approved@.contains_key(id) {
            self.get_approved@[id]@
        } else {
            Seq::empty()
        }
    }

    pub open spec fn afa_of(&self, owner: Seq<char>, operator: Seq<char>) -> bool {
        if self.approved_for_all@.contains_key((owner, operator)) {
            self.approved_for_all@[(owner, operator)]
        } else {
            false
        }
    }

    pub open spec fn allowance_of(&self, owner: Seq<char>, spender: Seq<char>) -> u128 {
        if self.allowance@.contains_key((owner, spender)) {
            self.allowance@[(owner, spender)]
        } else {
            0
        }
    }

    pub open spec fn wl_of(&self, a: Seq<char>) -> bool {
        if self.whitelist@.contains_key(a) {
            self.whitelist@[a]
        } else {
            false
        }
    }

    pub open spec fn locked_of(&self, id: u128) -> bool {
        if self.locked@.contains_key(id) {
            self.locked@[id]
        } else {
            false
        }
    }

    pub open spec fn maps_wf(&self) -> bool {
        &&& self.balances.wf()
        &&& self.owner_of.wf()
        &&& self.owned.wf()
        &&& self.owned_index.wf()
        &&& self.get_approved.wf()
        &&& self.approved_for_all.wf()
        &&& self.allowance.wf()
        &&& self.whitelist.wf()
        &&& self.locked.wf()
    }

    /// The unit size is representable, so unit arithmetic cannot overflow.
    pub open spec fn unit_ok(&self) -> bool {
        pow10(self.decimals as nat) <= u128::MAX
    }

    /// The balances sum exactly to the total supply.
    pub open spec fn sum_ok(&self) -> bool {
        sum_vals(self.balances.kvs()) == self.total_supply as int
    }

    /// What must hold of a live token id: it was allocated by the minted
    /// counter, its owner is a real identity, and the reverse index points
    /// at its exact position inside that owner's sequence.
    pub open spec fn token_entry_ok(&self, id: u128) -> bool {
        &&& 1 <= id <= self.minted
        &&& self.owner_str_of(id).len() > 0
        &&& self.owned_index@.contains_key(id)
        &&& self.owned_index@[id] < self.owned_of(self.owner_str_of(id)).len()
        &&& self.owned_of(self.owner_str_of(id))[self.owned_index@[id] as int] == id
    }

    pub open spec fn owner_ok(&self) -> bool {
        forall|id: u128| self.owner_of@.contains_key(id) ==> #[trigger] self.token_entry_ok(id)
    }

    /// An index entry exists only for a live token.
    pub open spec fn idx_entry_ok(&self, id: u128) -> bool {
        self.owned_index@.contains_key(id) ==> self.owner_of@.contains_key(id)
    }

    pub open spec fn idx_ok(&self) -> bool {
        forall|id: u128| #[trigger] self.idx_entry_ok(id)
    }

    /// An approval entry exists only for a live token.
    pub open spec fn appr_entry_ok(&self, id: u128) -> bool {
        self.get_approved@.contains_key(id) ==> self.owner_of@.contains_key(id)
    }

    pub open spec fn appr_ok(&self) -> bool {
        forall|id: u128| #[trigger] self.appr_entry_ok(id)
    }

    /// A blanket grant is only ever held from a real identity.
    pub open spec fn afa_entry_ok(&self, owner: Seq<char>, operator: Seq<char>) -> bool {
        self.afa_of(owner, operator) ==> owner.len() > 0
    }

    pub open spec fn afa_ok(&self) -> bool {
        forall|o: Seq<char>, op: Seq<char>| #[trigger] self.afa_entry_ok(o, op)
    }

    /// What must hold of the entry at position `i` of an owned sequence:
    /// the ownership map points back at the holder and the reverse index
    /// holds exactly this position.
    pub open spec fn owned_entry_ok(&self, a: Seq<char>, i: int) -> bool {
        &&& self.owner_of@.contains_key(self.owned_of(a)[i])
        &&& self.owner_str_of(self.owned_of(a)[i]) == a
        &&& self.owned_index@.contains_key(self.owned_of(a)[i])
        &&& self.owned_index@[self.owned_of(a)[i]] == i
    }

    pub open spec fn owned_ok(&self) -> bool {
        forall|a: Seq<char>, i: int|
            0 <= i < self.owned_of(a).len() ==> #[trigger] self.owned_entry_ok(a, i)
    }

    /// No identity owns more whole tokens than whole units of balance, and
    /// an exempt identity owns none at all.
    pub open spec fn count_ok(&self) -> bool {
        forall|a: Seq<char>|
            {
                &&& (#[trigger] self.owned_of(a)).len() <= self.bal_of(a) as int / self.spec_unit()
                &&& (self.wl_of(a) ==> self.owned_of(a).len() == 0)
            }
    }

    /// Well-formedness: every reachable state satisfies this.
    pub open spec fn wf(&self) -> bool {
        &&& self.maps_wf()
        &&& self.unit_ok()
        &&& self.sum_ok()
        &&& self.owner_ok()
        &&& self.owned_ok()
        &&& self.idx_ok()
        &&& self.appr_ok()
        &&& self.afa_ok()
        &&& self.count_ok()
    }

    /// Computes the unit size, ten to the number of decimals.
    pub fn get_unit(&self) -> (r: u128)
        requires
            self.unit_ok(),
        ensures
            r as int == self.spec_unit(),
    {
        let mut r: u128 = 1;
        let mut i: u8 = 0;
        while i < self.decimals
            invariant
                i <= self.decimals,
                r as nat == pow10(i as nat),
                self.unit_ok(),
            decreases self.decimals - i,
        {
            proof {
                lemma_pow10_mono((i + 1) as nat, self.decimals as nat);
            }
            r = r * 10;
            i = i + 1;
        }
        r
    }

    /// The fractional balance of an identity, zero when unknown.
    pub fn balance_of(&self, addr: &String) -> (r: u128)
        requires
            self.balances.wf(),
        ensures
            r == self.bal_of(addr@),
    {
        match self.balances.get(addr) {
            Some(v) => *v,
            None => 0,
        }
    }
}

/// Writes a balance entry, tracking the effect on the balance sum.
pub(crate) fn bal_set(m: &mut AssocMap<String, u128>, a: &String, v: u128)
    requires
        old(m).wf(),
    ensures
        final(m).wf(),
        final(m)@ == old(m)@.insert(a@, v),
        sum_vals(final(m).kvs()) == sum_vals(old(m).kvs()) - bal_in(old(m)@, a@) + v,
{
    let taken = m.take(a);
    proof {
        match &taken {
            Some(p) => {
                let i = choose|i: int|
                    0 <= i < old(m).kvs().len() && old(m).kvs()[i] == *p && m.kvs() == old(
                        m,
                    ).kvs().remove(i);
                lemma_sum_remove(old(m).kvs(), i);
            },
            None => {},
        }
    }
    let ghost mid = *m;
    match taken {
        Some(p) => {
            m.insert(p.0, v);
        },
        None => {
            m.insert(a.clone(), v);
        },
    }
    proof {
        lemma_sum_push(mid.kvs(), m.kvs().last());
        assert(m.kvs().drop_last() =~= mid.kvs());
        assert(old(m)@.remove(a@).insert(a@, v) =~= old(m)@.insert(a@, v));
    }
}

/// Copies a token id sequence.
pub fn copy_ids(v: &Vec<u128>) -> (r: Vec<u128>)
    ensures
        r@ == v@,
{
    let mut r: Vec<u128> = Vec::new();
    let n = v.len();
    let mut i: usize = 0;
    while i < n
        invariant
            i <= n,
            n == v@.len(),
            r@ == v@.subrange(0, i as int),
        decreases n - i,
    {
        r.push(v[i]);
        proof {
            assert(r@ =~= v@.subrange(0, i + 1 as int));
        }
        i = i + 1;
    }
    proof {
        assert(r@ =~= v@);
    }
    r
}

} // verus!
