use vstd::prelude::*;

use crate::msg::{
    AllNftInfoResponse, AllowanceResponse, BalanceResponse, ContractInfoResponse,
    ExtendedInfoResponse, MinterResponse, NftInfoResponse, NumTokensResponse, OwnerOfResponse,
    QueryAnswer, QueryMsg, TokenInfoResponse, TokensResponse, UserInfoResponse,
};
use crate::state::{copy_ids, Ledger};
use vstd::multiset::Multiset;

verus! {

/// The page size when the caller names none.
pub const DEFAULT_LIMIT: u32 = 10;

/// The largest page size a caller can ask for.
pub const MAX_LIMIT: u32 = 1000;

/// Ascending order.
pub open spec fn sorted(s: Seq<u128>) -> bool {
    forall|i: int, j: int| 0 <= i < j < s.len() ==> s[i] <= s[j]
}

/// The page size a request resolves to.
pub open spec fn limit_of(limit: Option<u32>) -> int {
    let l = match limit {
        Some(l) => l,
        None => DEFAULT_LIMIT,
    };
    if l > MAX_LIMIT {
        MAX_LIMIT as int
    } else {
        l as int
    }
}

/// Whether an id comes after the pagination cursor.
pub open spec fn after_cursor(x: u128, start_after: Option<u128>) -> bool {
    match start_after {
        Some(c) => x > c,
        None => true,
    }
}

/// How many ids the sequential listing returns: the page size, or however
/// many allocated ids remain past the cursor, whichever is smaller.
pub open spec fn all_tokens_len(l: &Ledger, start_after: Option<u128>, limit: Option<u32>) -> int {
    let lo: int = match start_after {
        Some(c) => c as int,
        None => 0,
    };
    let avail: int = if lo < l.minted as int {
        l.minted - lo
    } else {
        0
    };
    if limit_of(limit) <= avail {
        limit_of(limit)
    } else {
        avail
    }
}

/// Sorts a sequence of token ids ascending, keeping exactly its elements.
#[verifier::loop_isolation(false)]
fn sort_ids(v: &Vec<u128>) -> (r: Vec<u128>)
    ensures
        sorted(r@),
        r@.to_multiset() == v@.to_multiset(),
        r@.len() == v@.len(),
        forall|x: u128| r@.contains(x) <==> v@.contains(x),
{
    broadcast use vstd::seq_lib::group_to_multiset_ensures;

    let mut work = copy_ids(v);
    let mut out: Vec<u128> = Vec::new();
    while work.len() > 0
        invariant
            sorted(out@),
            out@.to_multiset().add(work@.to_multiset()) == v@.to_multiset(),
            forall|i: int, j: int|
                0 <= i < out@.len() && 0 <= j < work@.len() ==> out@[i] <= work@[j],
        decreases work.len(),
    {
        let n = work.len();
        let mut mi: usize = 0;
        let mut i: usize = 1;
        while i < n
            invariant
                n == work@.len(),
                mi < i <= n,
                forall|q: int| 0 <= q < i ==> work@[mi as int] <= work@[q],
            decreases n - i,
        {
            if work[i] < work[mi] {
                mi = i;
            }
            i = i + 1;
        }
        let ghost prev_out = out@;
        let ghost prev_work = work@;
        let x = work.remove(mi);
        out.push(x);
        proof {
            prev_out.to_multiset_ensures();
            prev_work.to_multiset_ensures();
            out@.to_multiset_ensures();
            work@.to_multiset_ensures();
            assert(out@ == prev_out.push(x));
            assert(work@ == prev_work.remove(mi as int));
            assert(prev_work[mi as int] == x);
            assert(prev_work.contains(x));
            assert(prev_work.to_multiset().contains(x));
            assert(out@.to_multiset() =~= prev_out.to_multiset().insert(x));
            assert(work@.to_multiset() =~= prev_work.to_multiset().remove(x));
            assert(out@.to_multiset().add(work@.to_multiset()) =~= prev_out.to_multiset().add(
                prev_work.to_multiset(),
            ));
            assert forall|i2: int, j2: int|
                0 <= i2 < out@.len() && 0 <= j2 < work@.len() implies out@[i2] <= work@[j2] by {
                let j0: int = if j2 < mi {
                    j2
                } else {
                    j2 + 1
                };
                assert(work@[j2] == prev_work[j0]);
                if i2 < out@.len() - 1 {
                    assert(out@[i2] == prev_out[i2]);
                } else {
                    assert(out@[i2] == x);
                }
            }
        }
    }
    proof {
        out@.to_multiset_ensures();
        v@.to_multiset_ensures();
        work@.to_multiset_ensures();
        assert(work@.to_multiset() =~= Multiset::<u128>::empty());
        assert(out@.to_multiset() =~= v@.to_multiset());
        assert(out@.len() == out@.to_multiset().len());
        assert(v@.len() == v@.to_multiset().len());
        assert forall|x: u128| out@.contains(x) <==> v@.contains(x) by {
            assert(out@.contains(x) <==> out@.to_multiset().count(x) > 0);
            assert(v@.contains(x) <==> v@.to_multiset().count(x) > 0);
        }
    }
    out
}

/// What each query answers, over the state's mathematical view.
pub open spec fn query_ok(l: &Ledger, msg: QueryMsg, r: QueryAnswer) -> bool {
    match msg {
        QueryMsg::Minter {} => (r matches QueryAnswer::Minter(m) && m.minter is None),
        QueryMsg::ContractInfo {} => (r matches QueryAnswer::ContractInfo(ci) && ci.name@
            == l.name@ && ci.symbol@ == l.symbol@),
        QueryMsg::Balance { address } => (r matches QueryAnswer::Balance(b) && b.balance
            == l.bal_of(address@)),
        QueryMsg::TokenInfo {} => (r matches QueryAnswer::TokenInfo(ti) && ti.name@ == l.name@
            && ti.symbol@ == l.symbol@ && ti.decimals == l.decimals && ti.total_supply
            == l.total_supply),
        QueryMsg::NftInfo { token_id } => (r matches QueryAnswer::NftInfo(ni) && ni.base_uri@
            == l.base_token_uri@ && ni.token_id == token_id),
        QueryMsg::OwnerOf { token_id, include_expired } => (r matches QueryAnswer::OwnerOf(o)
            && o.owner@ == l.owner_str_of(token_id) && o.approvals@.len() == 0),
        QueryMsg::UserInfo { address } => (r matches QueryAnswer::UserInfo(u) && u.owned@
            == l.owned_of(address@) && u.balances == l.bal_of(address@)),
        QueryMsg::ExtendedInfo { token_id } => (r matches QueryAnswer::ExtendedInfo(e)
            && e.owner_of@ == l.owner_str_of(token_id) && (l.owned_index@.contains_key(token_id)
            ==> e.owned_index == l.owned_index@[token_id])),
        QueryMsg::Allowance { owner, spender } => (r matches QueryAnswer::Allowance(a)
            && a.allowance == l.allowance_of(owner@, spender@)),
        QueryMsg::IsLocked { token_id } => (r matches QueryAnswer::IsLocked(b) && b
            == l.locked_of(token_id)),
        QueryMsg::AllNftInfo { token_id, include_expired } => (r matches QueryAnswer::AllNftInfo(a)
            && a.access.owner@ == l.owner_str_of(token_id) && a.info.token_id == token_id
            && a.info.base_uri@ == l.base_token_uri@),
        QueryMsg::NumTokens {} => (r matches QueryAnswer::NumTokens(n) && n.count == l.minted),
        QueryMsg::Tokens { owner, start_after, limit } => (r matches QueryAnswer::Tokens(t)
            && sorted(t.tokens@) && (forall|i: int, j: int|
            #![trigger t.tokens@[i], t.tokens@[j]]
            0 <= i < j < t.tokens@.len() ==> t.tokens@[i] < t.tokens@[j]) && t.tokens@.len()
            <= limit_of(limit) && (forall|x: u128|
            #[trigger] t.tokens@.contains(x) ==> l.owned_of(owner@).contains(x) && after_cursor(
            x,
            start_after,
        )) && (t.tokens@.len() < limit_of(limit) ==> forall|x: u128|
            l.owned_of(owner@).contains(x) && after_cursor(x, start_after)
                ==> #[trigger] t.tokens@.contains(x)) && (forall|x: u128|
            #![trigger t.tokens@.contains(x)]
            #![trigger l.owned_of(owner@).contains(x)]
            l.owned_of(owner@).contains(x) && after_cursor(x, start_after) && !t.tokens@.contains(
                x,
            ) ==> t.tokens@.len() == limit_of(limit) && (t.tokens@.len() > 0 ==> x
                > t.tokens@.last()))),
        QueryMsg::AllTokens { start_after, limit } => (r matches QueryAnswer::AllTokens(t)
            && t.tokens@.len() == all_tokens_len(l, start_after, limit) && (forall|q: int|
            0 <= q < t.tokens@.len() ==> t.tokens@[q] == (match start_after {
                Some(c) => c + 1 + q,
                None => 1 + q,
            })) && (forall|q: int|
            0 <= q < t.tokens@.len() ==> 1 <= #[trigger] t.tokens@[q] <= l.minted)),
    }
}

impl Ledger {
    /// The owner of a token id, the empty identity when the id is not
    /// live; tokens never carry their own approvals in this view.
    pub fn owner_of_query(&self, token_id: u128) -> (r: OwnerOfResponse)
        requires
            self.wf(),
        ensures
            r.owner@ == self.owner_str_of(token_id),
            r.approvals@.len() == 0,
    {
        let owner = match self.owner_of.get(&token_id) {
            Some(o) => o.clone(),
            None => String::new(),
        };
        OwnerOfResponse { owner, approvals: Vec::new() }
    }

    /// The owned token ids and fractional balance of one identity.
    pub fn user_info(&self, address: &String) -> (r: UserInfoResponse)
        requires
            self.wf(),
        ensures
            r.owned@ == self.owned_of(address@),
            r.balances == self.bal_of(address@),
    {
        let owned = match self.owned.get(address) {
            Some(v) => copy_ids(v),
            None => Vec::new(),
        };
        let balances = self.balance_of(address);
        UserInfoResponse { owned, balances }
    }

    /// The reverse-index position and owner of one token id; both default
    /// to the empty value for an id that is not live.
    pub fn extended_info(&self, token_id: u128) -> (r: ExtendedInfoResponse)
        requires
            self.wf(),
        ensures
            r.owned_index == (if self.owned_index@.contains_key(token_id) {
                self.owned_index@[token_id]
            } else {
                0
            }),
            r.owner_of@ == self.owner_str_of(token_id),
    {
        let owned_index = match self.owned_index.get(&token_id) {
            Some(v) => *v,
            None => 0,
        };
        let owner_of = match self.owner_of.get(&token_id) {
            Some(o) => o.clone(),
            None => String::new(),
        };
        ExtendedInfoResponse { owned_index, owner_of }
    }

    /// The remaining fractional allowance of a spender over an owner.
    pub fn allowance_query(&self, owner: &String, spender: &String) -> (r: AllowanceResponse)
        requires
            self.wf(),
        ensures
            r.allowance == self.allowance_of(owner@, spender@),
    {
        let pair = crate::store::AddrPair { owner: owner.clone(), spender: spender.clone() };
        let allowance = match self.allowance.get(&pair) {
            Some(v) => *v,
            None => 0,
        };
        AllowanceResponse { allowance }
    }

    /// Whether a token's lock flag is set.
    pub fn is_locked(&self, token_id: u128) -> (r: bool)
        requires
            self.wf(),
        ensures
            r == self.locked_of(token_id),
    {
        match self.locked.get(&token_id) {
            Some(b) => *b,
            None => false,
        }
    }

    /// The total number of whole tokens ever created.
    pub fn num_tokens(&self) -> (r: NumTokensResponse)
        ensures
            r.count == self.minted,
    {
        NumTokensResponse { count: self.minted }
    }

    /// The collection name and symbol.
    pub fn contract_info(&self) -> (r: ContractInfoResponse)
        ensures
            r.name@ == self.name@,
            r.symbol@ == self.symbol@,
    {
        ContractInfoResponse { name: self.name.clone(), symbol: self.symbol.clone() }
    }

    /// The fungible face of the ledger: name, symbol, decimals, supply.
    pub fn token_info(&self) -> (r: TokenInfoResponse)
        ensures
            r.name@ == self.name@,
            r.symbol@ == self.symbol@,
            r.decimals == self.decimals,
            r.total_supply == self.total_supply,
    {
        TokenInfoResponse {
            name: self.name.clone(),
            symbol: self.symbol.clone(),
            decimals: self.decimals,
            total_supply: self.total_supply,
        }
    }

    /// The metadata of one token: the host renders `base_uri` followed by
    /// the decimal form of the id.
    pub fn nft_info(&self, token_id: u128) -> (r: NftInfoResponse)
        ensures
            r.base_uri@ == self.base_token_uri@,
            r.token_id == token_id,
    {
        NftInfoResponse { base_uri: self.base_token_uri.clone(), token_id }
    }

    /// The owner, approval and metadata of one token in a single answer;
    /// the approval list is empty or the single approved spender.
    pub fn all_nft_info(&self, token_id: u128) -> (r: AllNftInfoResponse)
        requires
            self.wf(),
        ensures
            r.access.owner@ == self.owner_str_of(token_id),
            self.approved_of(token_id).len() == 0 ==> r.access.approvals@.len() == 0,
            self.approved_of(token_id).len() > 0 ==> r.access.approvals@.len() == 1
                && r.access.approvals@[0]@ == self.approved_of(token_id),
            r.info.base_uri@ == self.base_token_uri@,
            r.info.token_id == token_id,
    {
        let owner = match self.owner_of.get(&token_id) {
            Some(o) => o.clone(),
            None => String::new(),
        };
        let mut approvals: Vec<String> = Vec::new();
        match self.get_approved.get(&token_id) {
            Some(sp) => {
                if sp.as_str().unicode_len() > 0 {
                    approvals.push(sp.clone());
                }
            },
            None => {},
        }
        proof {
            if self.approved_of(token_id).len() == 0 && self.get_approved@.contains_key(
                token_id,
            ) {
                assert(approvals@.len() == 0);
            }
        }
        AllNftInfoResponse {
            access: OwnerOfResponse { owner, approvals },
            info: NftInfoResponse { base_uri: self.base_token_uri.clone(), token_id },
        }
    }

    /// One ascending page of the identity's owned token ids, beginning
    /// strictly after the cursor.
    #[verifier::loop_isolation(false)]
    #[verifier::rlimit(30)]
    pub fn tokens(&self, owner: &String, start_after: Option<u128>, limit: Option<u32>) -> (r:
        TokensResponse)
        requires
            self.wf(),
        ensures
            sorted(r.tokens@),
            forall|i: int, j: int|
                #![trigger r.tokens@[i], r.tokens@[j]]
                0 <= i < j < r.tokens@.len() ==> r.tokens@[i] < r.tokens@[j],
            r.tokens@.len() <= limit_of(limit),
            forall|x: u128|
                #[trigger] r.tokens@.contains(x) ==> self.owned_of(owner@).contains(x)
                    && after_cursor(x, start_after),
            r.tokens@.len() < limit_of(limit) ==> forall|x: u128|
                self.owned_of(owner@).contains(x) && after_cursor(x, start_after)
                    ==> #[trigger] r.tokens@.contains(x),
            forall|x: u128|
                #![trigger r.tokens@.contains(x)]
                #![trigger self.owned_of(owner@).contains(x)]
                self.owned_of(owner@).contains(x) && after_cursor(x, start_after)
                    && !r.tokens@.contains(x) ==> r.tokens@.len() == limit_of(limit) && (
                r.tokens@.len() > 0 ==> x > r.tokens@.last()),
    {
        let lim32 = match limit {
            Some(l) => if l > MAX_LIMIT {
                MAX_LIMIT
            } else {
                l
            },
            None => DEFAULT_LIMIT,
        };
        let lim = lim32 as usize;
        let owned = match self.owned.get(owner) {
            Some(v) => copy_ids(v),
            None => Vec::new(),
        };
        let ids = sort_ids(&owned);
        proof {
            // Distinct positions hold distinct ids, so the sorted copy is
            // strictly ascending.
            assert forall|p: int, q: int|
                0 <= p < owned@.len() && 0 <= q < owned@.len() && p != q implies owned@[p]
                != owned@[q] by {
                assert(self.owned_entry_ok(owner@, p));
                assert(self.owned_entry_ok(owner@, q));
            }
            assert(owned@.no_duplicates());
            owned@.lemma_multiset_has_no_duplicates();
            ids@.lemma_multiset_has_no_duplicates_conv();
            assert(ids@.no_duplicates());
            assert forall|p: int, q: int| 0 <= p < q < ids@.len() implies ids@[p] < ids@[q] by {}
        }
        let n = ids.len();
        // The qualifying ids form a suffix of the sorted sequence.
        let mut si: usize = 0;
        match start_after {
            Some(c) => {
                while si < n && ids[si] <= c
                    invariant
                        si <= n,
                        n == ids@.len(),
                        forall|q: int| 0 <= q < si ==> !after_cursor(ids@[q], start_after),
                    decreases n - si,
                {
                    si = si + 1;
                }
            },
            None => {},
        }
        let mut out: Vec<u128> = Vec::new();
        let mut i: usize = si;
        while i < n && out.len() < lim
            invariant
                si <= i <= n,
                n == ids@.len(),
                out@ == ids@.subrange(si as int, i as int),
                out@.len() <= lim,
                forall|q: int| 0 <= q < si ==> !after_cursor(ids@[q], start_after),
                si < n ==> after_cursor(ids@[si as int], start_after),
            decreases n - i,
        {
            out.push(ids[i]);
            proof {
                assert(out@ =~= ids@.subrange(si as int, i + 1 as int));
            }
            i = i + 1;
        }
        proof {
            assert(sorted(out@));
            assert forall|x: u128|
                #[trigger] out@.contains(x) implies self.owned_of(owner@).contains(x)
                    && after_cursor(x, start_after) by {
                let q = choose|q: int| 0 <= q < out@.len() && out@[q] == x;
                assert(ids@[si + q] == x);
                assert(ids@.contains(x));
                assert(owned@.contains(x));
                match start_after {
                    Some(c) => {
                        assert(ids@[si as int] <= ids@[si + q]);
                    },
                    None => {},
                }
            }
            if out@.len() < lim as int {
                assert(i == n);
                assert forall|x: u128|
                    self.owned_of(owner@).contains(x) && after_cursor(x, start_after)
                        implies #[trigger] out@.contains(x) by {
                    assert(ids@.contains(x));
                    let q = choose|q: int| 0 <= q < ids@.len() && ids@[q] == x;
                    assert(si as int <= q);
                    assert(out@[q - si] == x);
                }
            }
            // A full page holds the least qualifying ids: whatever qualifies
            // and is left out lies beyond the page's last element.
            assert forall|x: u128|
                self.owned_of(owner@).contains(x) && after_cursor(x, start_after)
                    && !out@.contains(x) implies out@.len() == lim as int && (out@.len() > 0
                ==> x > out@.last()) by {
                assert(ids@.contains(x));
                let q = choose|q: int| 0 <= q < ids@.len() && ids@[q] == x;
                assert(si as int <= q);
                if q < i as int {
                    assert(out@[q - si] == x);
                    assert(out@.contains(x));
                }
                assert(i as int <= q < n);
                assert(out@.len() == lim as int);
                if out@.len() > 0 {
                    assert(out@.last() == ids@[i - 1]);
                    assert(ids@[i - 1] < ids@[q]);
                }
            }
        }
        TokensResponse { tokens: out }
    }

    /// One page of the sequentially allocated token ids, beginning
    /// strictly after the cursor and never past the minted counter. Burned
    /// ids are not filtered out of this listing.
    #[verifier::loop_isolation(false)]
    pub fn all_tokens(&self, start_after: Option<u128>, limit: Option<u32>) -> (r: TokensResponse)
        requires
            self.wf(),
        ensures
            r.tokens@.len() == all_tokens_len(self, start_after, limit),
            r.tokens@.len() <= limit_of(limit),
            forall|q: int|
                0 <= q < r.tokens@.len() ==> r.tokens@[q] == (match start_after {
                    Some(c) => c + 1 + q,
                    None => 1 + q,
                }),
            forall|q: int| 0 <= q < r.tokens@.len() ==> 1 <= #[trigger] r.tokens@[q] <= self.minted,
    {
        let lim32 = match limit {
            Some(l) => if l > MAX_LIMIT {
                MAX_LIMIT
            } else {
                l
            },
            None => DEFAULT_LIMIT,
        };
        let lo: u128 = match start_after {
            Some(c) => c,
            None => 0,
        };
        let mut out: Vec<u128> = Vec::new();
        let mut next: u128 = lo;
        let mut taken: u32 = 0;
        while taken < lim32 && next < self.minted
            invariant
                taken as int == out@.len(),
                taken <= lim32,
                lo <= next <= u128::MAX,
                next as int == lo + taken,
                taken as int <= (if (lo as int) < self.minted as int {
                    self.minted - lo
                } else {
                    0
                }),
                forall|q: int| 0 <= q < out@.len() ==> out@[q] == lo + 1 + q,
                forall|q: int| 0 <= q < out@.len() ==> 1 <= #[trigger] out@[q] <= self.minted,
            decreases lim32 - taken,
        {
            out.push(next + 1);
            next = next + 1;
            taken = taken + 1;
        }
        proof {
            assert(lim32 as int == limit_of(limit));
            assert(out@.len() == all_tokens_len(self, start_after, limit));
        }
        TokensResponse { tokens: out }
    }

    /// Who can mint: nobody, since the engine mints only through unit
    /// boundaries crossed by transfers.
    pub fn minter(&self) -> (r: MinterResponse)
        ensures
            r.minter is None,
    {
        MinterResponse { minter: None }
    }

    /// Answers one read-only query.
    pub fn query(&self, msg: QueryMsg) -> (r: QueryAnswer)
        requires
            self.wf(),
        ensures
            query_ok(self, msg, r),
    {
        match msg {
            QueryMsg::Minter {} => QueryAnswer::Minter(self.minter()),
            QueryMsg::ContractInfo {} => QueryAnswer::ContractInfo(self.contract_info()),
            QueryMsg::Balance { address } => QueryAnswer::Balance(
                BalanceResponse { balance: self.balance_of(&address) },
            ),
            QueryMsg::TokenInfo {} => QueryAnswer::TokenInfo(self.token_info()),
            QueryMsg::NftInfo { token_id } => QueryAnswer::NftInfo(self.nft_info(token_id)),
            QueryMsg::OwnerOf { token_id, include_expired: _ } => QueryAnswer::OwnerOf(
                self.owner_of_query(token_id),
            ),
            QueryMsg::UserInfo { address } => QueryAnswer::UserInfo(self.user_info(&address)),
            QueryMsg::ExtendedInfo { token_id } => QueryAnswer::ExtendedInfo(
                self.extended_info(token_id),
            ),
            QueryMsg::Allowance { owner, spender } => QueryAnswer::Allowance(
                self.allowance_query(&owner, &spender),
            ),
            QueryMsg::IsLocked { token_id } => QueryAnswer::IsLocked(self.is_locked(token_id)),
            QueryMsg::AllNftInfo { token_id, include_expired: _ } => QueryAnswer::AllNftInfo(
                self.all_nft_info(token_id),
            ),
            QueryMsg::NumTokens {} => QueryAnswer::NumTokens(self.num_tokens()),
            QueryMsg::Tokens { owner, start_after, limit } => QueryAnswer::Tokens(
                self.tokens(&owner, start_after, limit),
            ),
            QueryMsg::AllTokens { start_after, limit } => QueryAnswer::AllTokens(
                self.all_tokens(start_after, limit),
            ),
        }
    }
}

} // verus!
