use vstd::prelude::*;

use vstd::arithmetic::div_mod::{lemma_basic_div, lemma_div_is_ordered, lemma_div_minus_one, lemma_div_plus_one, lemma_div_pos_is_pos, lemma_fundamental_div_mod};

use crate::error::ContractError;
use crate::msg::{Action, ExecuteMsg, InstantiateMsg, NftEvent, Response};
use crate::store::{AddrPair, AssocMap, MapKey};
use crate::state::{pow10, Ledger};

verus! {

/// The sequence after removing position `i` by the swap-with-last-then-pop
/// scheme: the last element overwrites the vacated slot, then the tail is
/// popped. When `i` is already the last position the swap is a no-op.
pub open spec fn swap_removed(s: Seq<u128>, i: int) -> Seq<u128> {
    s.update(i, s.last()).drop_last()
}

/// The smaller of two mathematical integers.
pub open spec fn min_int(a: int, b: int) -> int {
    if a <= b {
        a
    } else {
        b
    }
}

/// The configuration fields no mutating operation but creation touches.
pub open spec fn config_unchanged(pre: &Ledger, post: &Ledger) -> bool {
    &&& post.owner == pre.owner
    &&& post.name == pre.name
    &&& post.symbol == pre.symbol
    &&& post.base_token_uri == pre.base_token_uri
    &&& post.decimals == pre.decimals
    &&& post.total_supply == pre.total_supply
}

/// The grant and flag tables a transfer never touches.
pub open spec fn flags_unchanged(pre: &Ledger, post: &Ledger) -> bool {
    &&& post.approved_for_all == pre.approved_for_all
    &&& post.whitelist == pre.whitelist
    &&& post.locked == pre.locked
}

/// The authorization and flag tables the ownership-set mutators never touch.
pub open spec fn auth_unchanged(pre: &Ledger, post: &Ledger) -> bool {
    &&& flags_unchanged(pre, post)
    &&& post.allowance == pre.allowance
}

/// The consistency core of well-formedness: the parts that hold even while
/// balances and ownership counts are mid-synchronization.
pub open spec fn structure_ok(s: &Ledger) -> bool {
    &&& s.maps_wf()
    &&& s.unit_ok()
    &&& s.owner_ok()
    &&& s.owned_ok()
    &&& s.idx_ok()
    &&& s.appr_ok()
    &&& s.afa_ok()
}

/// How one whole-token mint changes the state: the id is allocated by
/// advancing the minted counter, appended to the recipient's owned
/// sequence, and indexed at its tail position.
pub open spec fn mint_step(pre: Ledger, post: Ledger, to: Seq<char>, id: u128) -> bool {
    &&& pre.minted < u128::MAX
    &&& id == pre.minted + 1
    &&& post.minted == id
    &&& post.owned_of(to) == pre.owned_of(to).push(id)
    &&& forall|a: Seq<char>| a != to ==> post.owned_of(a) == pre.owned_of(a)
    &&& post.owner_of@.contains_key(id)
    &&& post.owner_of@[id]@ == to
    &&& post.owner_of@ == pre.owner_of@.insert(id, post.owner_of@[id])
    &&& post.owned_index@ == pre.owned_index@.insert(id, pre.owned_of(to).len() as u128)
    &&& post.get_approved == pre.get_approved
    &&& post.balances == pre.balances
    &&& config_unchanged(&pre, &post)
    &&& auth_unchanged(&pre, &post)
}

/// How one whole-token burn changes the state: the last element of the
/// holder's owned sequence disappears together with its ownership,
/// index and approval entries. The minted counter never decreases.
pub open spec fn burn_step(pre: Ledger, post: Ledger, from: Seq<char>, id: u128) -> bool {
    &&& pre.owned_of(from).len() > 0
    &&& id == pre.owned_of(from).last()
    &&& post.owned_of(from) == pre.owned_of(from).drop_last()
    &&& forall|a: Seq<char>| a != from ==> post.owned_of(a) == pre.owned_of(a)
    &&& post.owner_of@ == pre.owner_of@.remove(id)
    &&& post.owned_index@ == pre.owned_index@.remove(id)
    &&& post.get_approved@ == pre.get_approved@.remove(id)
    &&& post.balances == pre.balances
    &&& post.minted == pre.minted
    &&& config_unchanged(&pre, &post)
    &&& auth_unchanged(&pre, &post)
}

/// The sender's balance after the debit and credit of a fractional transfer.
pub open spec fn post_bal_from(pre: &Ledger, from: Seq<char>, to: Seq<char>, amount: u128) -> int {
    if from == to {
        pre.bal_of(from) as int
    } else {
        pre.bal_of(from) - amount
    }
}

/// The recipient's balance after the debit and credit of a fractional transfer.
pub open spec fn post_bal_to(pre: &Ledger, from: Seq<char>, to: Seq<char>, amount: u128) -> int {
    if from == to {
        pre.bal_of(from) as int
    } else {
        pre.bal_of(to) + amount
    }
}

/// How many whole tokens a fractional transfer burns from the sender: the
/// number of unit boundaries the debit crossed, but never more tokens than
/// the sender actually holds, and none at all for an exempt sender.
pub open spec fn sync_burns(pre: &Ledger, from: Seq<char>, to: Seq<char>, amount: u128) -> int {
    if pre.wl_of(from) {
        0
    } else {
        min_int(
            pre.bal_of(from) as int / pre.spec_unit() - post_bal_from(pre, from, to, amount)
                / pre.spec_unit(),
            pre.owned_of(from).len() as int,
        )
    }
}

/// How many whole tokens a fractional transfer mints for the recipient:
/// the number of unit boundaries the credit crossed, none for an exempt
/// recipient.
pub open spec fn sync_mints(pre: &Ledger, from: Seq<char>, to: Seq<char>, amount: u128) -> int {
    if pre.wl_of(to) {
        0
    } else {
        post_bal_to(pre, from, to, amount) / pre.spec_unit() - pre.bal_of(to) as int
            / pre.spec_unit()
    }
}

/// The elements in the last `j` positions of a sequence.
pub open spec fn victim_set(s: Seq<u128>, j: int) -> Set<u128> {
    Set::new(|x: u128| exists|p: int| s.len() - j <= p < s.len() && s[p] == x)
}

/// The token ids strictly above `lo` and at most `hi`.
pub open spec fn id_range_set(lo: u128, hi: int) -> Set<u128> {
    Set::new(|x: u128| lo < x <= hi)
}

/// The error a fractional transfer reports, if any, in the order the
/// conditions are checked: invalid parties, then the debit, then the
/// credit, then the burn locks, then the mint counter.
pub open spec fn sync_err(pre: &Ledger, from: Seq<char>, to: Seq<char>, amount: u128) -> Option<
    ContractError,
> {
    let s = pre.owned_of(from);
    let k = sync_burns(pre, from, to, amount);
    if from.len() == 0 {
        Some(ContractError::InvalidSender)
    } else if to.len() == 0 {
        Some(ContractError::InvalidRecipient)
    } else if pre.bal_of(from) < amount {
        Some(ContractError::InsufficientBalance)
    } else if post_bal_to(pre, from, to, amount) > u128::MAX {
        Some(ContractError::ArithmeticOverflow)
    } else if exists|j: int| s.len() - k <= j < s.len() && pre.locked_of(#[trigger] s[j]) {
        Some(ContractError::LockedToken)
    } else if pre.minted + sync_mints(pre, from, to, amount) > u128::MAX {
        Some(ContractError::ArithmeticOverflow)
    } else {
        None
    }
}

/// How a successful fractional transfer changes the state: the amount
/// moves between the two balances, the crossed unit boundaries burn the
/// sender's newest tokens and mint fresh ids for the recipient.
pub open spec fn sync_effect(pre: Ledger, post: Ledger, from: Seq<char>, to: Seq<char>, amount: u128) -> bool {
    let k = sync_burns(&pre, from, to, amount);
    let m = sync_mints(&pre, from, to, amount);
    let s = pre.owned_of(from);
    let base_from = s.take(s.len() - k);
    let mint_ids = Seq::new(m as nat, |j: int| (pre.minted + 1 + j) as u128);
    &&& post.bal_of(from) as int == post_bal_from(&pre, from, to, amount)
    &&& post.bal_of(to) as int == post_bal_to(&pre, from, to, amount)
    &&& (forall|a: Seq<char>| a != from && a != to ==> post.bal_of(a) == pre.bal_of(a))
    &&& post.minted == pre.minted + m
    &&& post.owned_of(to) == (if to == from {
        base_from
    } else {
        pre.owned_of(to)
    }) + mint_ids
    &&& (from != to ==> post.owned_of(from) == base_from)
    &&& (forall|a: Seq<char>| a != from && a != to ==> post.owned_of(a) == pre.owned_of(a))
    &&& (forall|j: int|
        s.len() - k <= j < s.len() ==> !post.owner_of@.contains_key(#[trigger] s[j])
            && !post.get_approved@.contains_key(s[j]) && !post.owned_index@.contains_key(s[j]))
    &&& post.get_approved@ == pre.get_approved@.remove_keys(victim_set(s, k))
    &&& (forall|x: u128|
        pre.minted < x <= pre.minted + m ==> #[trigger] post.owner_of@.contains_key(x)
            && post.owner_str_of(x) == to)
    &&& config_unchanged(&pre, &post)
    &&& flags_unchanged(&pre, &post)
}

/// A successful fractional transfer changes the state as `sync_effect`
/// says and leaves every allowance alone.
pub open spec fn sync_ok(pre: Ledger, post: Ledger, from: Seq<char>, to: Seq<char>, amount: u128) -> bool {
    &&& sync_effect(pre, post, from, to, amount)
    &&& post.allowance == pre.allowance
}

/// The record a successful fractional transfer returns: the parties and
/// amount, and one burn event per destroyed token (newest first) followed
/// by one mint event per created token (in id order).
pub open spec fn sync_resp_ok(
    resp: Response,
    label: Action,
    from: Seq<char>,
    to: Seq<char>,
    amount: u128,
    spender: Option<String>,
    pre: Ledger,
) -> bool {
    let k = sync_burns(&pre, from, to, amount);
    let m = sync_mints(&pre, from, to, amount);
    let s = pre.owned_of(from);
    match resp {
        Response::Transferred {
            label: l2,
            from: f2,
            to: t2,
            amount: a2,
            spender: sp2,
            events,
        } => {
            &&& l2 == label
            &&& f2@ == from
            &&& t2@ == to
            &&& a2 == amount
            &&& sp2 == spender
            &&& events@.len() == k + m
            &&& (forall|j: int|
                0 <= j < k ==> ((#[trigger] events@[j]) matches NftEvent::Burn {
                    from: ef,
                    token_id: ei,
                } && ef@ == from && ei == s[s.len() - 1 - j]))
            &&& (forall|j: int|
                0 <= j < m ==> ((#[trigger] events@[k + j]) matches NftEvent::Mint {
                    to: et,
                    token_id: ei,
                } && et@ == to && ei == pre.minted + 1 + j))
        },
        _ => false,
    }
}

/// Whether `caller` may move a token owned by `owner`: the caller is the
/// owner, holds a blanket grant from the owner, or is the token's single
/// approved spender.
pub open spec fn token_auth_ok(pre: &Ledger, caller: Seq<char>, owner: Seq<char>, id: u128) -> bool {
    ||| caller == owner
    ||| pre.afa_of(owner, caller)
    ||| caller == pre.approved_of(id)
}

/// The error a whole-token transfer reports, if any, in check order.
pub open spec fn token_err(
    pre: &Ledger,
    caller: Seq<char>,
    from: Seq<char>,
    to: Seq<char>,
    id: u128,
) -> Option<ContractError> {
    if from != pre.owner_str_of(id) {
        Some(ContractError::InvalidSender)
    } else if to.len() == 0 {
        Some(ContractError::InvalidRecipient)
    } else if !token_auth_ok(pre, caller, from, id) {
        Some(ContractError::Unauthorized)
    } else if pre.wl_of(to) {
        Some(ContractError::InvalidRecipient)
    } else {
        None
    }
}

/// How a successful whole-token transfer changes the state: exactly one
/// unit of balance moves, the id leaves the sender's sequence by
/// swap-with-last, joins the tail of the recipient's, and its single
/// approval is cleared.
pub open spec fn token_ok(pre: Ledger, post: Ledger, from: Seq<char>, to: Seq<char>, id: u128) -> bool {
    let u = pre.spec_unit();
    let s = pre.owned_of(from);
    let moved = swap_removed(s, pre.owned_index@[id] as int);
    &&& post.bal_of(from) as int == (if from == to {
        pre.bal_of(from) as int
    } else {
        pre.bal_of(from) - u
    })
    &&& post.bal_of(to) as int == (if from == to {
        pre.bal_of(from) as int
    } else {
        pre.bal_of(to) + u
    })
    &&& (forall|a: Seq<char>| a != from && a != to ==> post.bal_of(a) == pre.bal_of(a))
    &&& post.owned_of(to) == (if to == from {
        moved
    } else {
        pre.owned_of(to)
    }).push(id)
    &&& (from != to ==> post.owned_of(from) == moved)
    &&& (forall|a: Seq<char>| a != from && a != to ==> post.owned_of(a) == pre.owned_of(a))
    &&& post.owner_of@.contains_key(id)
    &&& post.owner_str_of(id) == to
    &&& (forall|x: u128|
        #![trigger post.owner_str_of(x)]
        #![trigger post.owner_of@.contains_key(x)]
        x != id ==> (post.owner_of@.contains_key(x) <==> pre.owner_of@.contains_key(x))
            && post.owner_str_of(x) == pre.owner_str_of(x))
    &&& post.get_approved@ == pre.get_approved@.remove(id)
    &&& post.minted == pre.minted
    &&& config_unchanged(&pre, &post)
    &&& flags_unchanged(&pre, &post)
    &&& post.allowance == pre.allowance
}

/// The record a successful whole-token transfer returns: the parties, the
/// id, one unit of amount, and a single transfer event.
pub open spec fn token_resp_ok(
    resp: Response,
    label: Action,
    from: Seq<char>,
    to: Seq<char>,
    id: u128,
    u: int,
) -> bool {
    match resp {
        Response::TokenTransferred { label: l2, from: f2, to: t2, token_id: i2, amount: a2, events } => {
            &&& l2 == label
            &&& f2@ == from
            &&& t2@ == to
            &&& i2 == id
            &&& a2 as int == u
            &&& events@.len() == 1
            &&& (events@[0] matches NftEvent::Transfer { from: ef, to: et, token_id: ei }
                && ef@ == from && et@ == to && ei == id)
        },
        _ => false,
    }
}

/// The label the dual-mode transfer reports on its token interpretation.
pub open spec fn token_label_of(l: Option<Action>) -> Action {
    match l {
        Some(a) => a,
        None => Action::Transfer,
    }
}

/// The label it reports on its fractional interpretation.
pub open spec fn frac_label_of(l: Option<Action>) -> Action {
    match l {
        Some(a) => a,
        None => Action::TransferFrom,
    }
}

/// How a fractional transfer-from settles the caller's allowance: the
/// unlimited sentinel is never decremented, any other allowance shrinks
/// by the amount spent.
pub open spec fn spent_ok(pre: Ledger, post: Ledger, owner: Seq<char>, spender: Seq<char>, amount: u128) -> bool {
    let al = pre.allowance_of(owner, spender);
    if al == u128::MAX {
        post.allowance == pre.allowance
    } else {
        post.allowance@ == pre.allowance@.insert((owner, spender), (al - amount) as u128)
    }
}

/// The error the dual-mode transfer reports, if any: the argument is a
/// token id exactly when it does not exceed the minted counter.
pub open spec fn tf_err(
    pre: &Ledger,
    caller: Seq<char>,
    from: Seq<char>,
    to: Seq<char>,
    v: u128,
) -> Option<ContractError> {
    if from.len() == 0 {
        Some(ContractError::InvalidSender)
    } else if to.len() == 0 {
        Some(ContractError::InvalidRecipient)
    } else if v <= pre.minted {
        token_err(pre, caller, from, to, v)
    } else {
        let al = pre.allowance_of(from, caller);
        if al != u128::MAX && al < v {
            Some(ContractError::InsufficientAllowance)
        } else {
            sync_err(pre, from, to, v)
        }
    }
}

/// Well-formedness survives any change confined to the approval, grant,
/// allowance and lock tables.
pub proof fn lemma_wf_frame(pre: Ledger, post: Ledger)
    requires
        pre.wf(),
        post.balances == pre.balances,
        post.owner_of == pre.owner_of,
        post.owned == pre.owned,
        post.owned_index == pre.owned_index,
        post.whitelist == pre.whitelist,
        post.minted == pre.minted,
        post.total_supply == pre.total_supply,
        post.decimals == pre.decimals,
        post.get_approved.wf(),
        post.approved_for_all.wf(),
        post.allowance.wf(),
        post.locked.wf(),
        forall|x: u128|
            #[trigger] post.get_approved@.contains_key(x) ==> pre.get_approved@.contains_key(x)
                || post.owner_of@.contains_key(x),
        forall|o: Seq<char>, op: Seq<char>|
            #[trigger] post.afa_of(o, op) ==> pre.afa_of(o, op) || o.len() > 0,
    ensures
        post.wf(),
{
    assert forall|a: Seq<char>, i: int|
        0 <= i < post.owned_of(a).len() implies #[trigger] post.owned_entry_ok(a, i) by {
        assert(pre.owned_entry_ok(a, i));
    }
    assert forall|x: u128| post.owner_of@.contains_key(x) implies #[trigger] post.token_entry_ok(
        x,
    ) by {
        assert(pre.token_entry_ok(x));
    }
    assert forall|x: u128| #[trigger] post.idx_entry_ok(x) by {
        assert(pre.idx_entry_ok(x));
    }
    assert forall|x: u128| #[trigger] post.appr_entry_ok(x) by {
        if post.get_approved@.contains_key(x) {
            assert(pre.appr_entry_ok(x));
        }
    }
    assert forall|o: Seq<char>, op: Seq<char>| #[trigger] post.afa_entry_ok(o, op) by {
        assert(pre.afa_entry_ok(o, op));
    }
    assert forall|a: Seq<char>|
        (#[trigger] post.owned_of(a)).len() <= post.bal_of(a) as int / post.spec_unit() && (
        post.wl_of(a) ==> post.owned_of(a).len() == 0) by {
        assert(pre.owned_of(a).len() <= pre.bal_of(a) as int / pre.spec_unit());
        assert(pre.wl_of(a) ==> pre.owned_of(a).len() == 0);
    }
}

/// Well-formedness survives setting an exemption flag, provided an identity
/// being made exempt owns nothing.
pub proof fn lemma_wf_wl(pre: Ledger, post: Ledger, target: Seq<char>, state: bool)
    requires
        pre.wf(),
        post.balances == pre.balances,
        post.owner_of == pre.owner_of,
        post.owned == pre.owned,
        post.owned_index == pre.owned_index,
        post.get_approved == pre.get_approved,
        post.approved_for_all == pre.approved_for_all,
        post.allowance == pre.allowance,
        post.locked == pre.locked,
        post.minted == pre.minted,
        post.total_supply == pre.total_supply,
        post.decimals == pre.decimals,
        post.whitelist.wf(),
        post.whitelist@ == pre.whitelist@.insert(target, state),
        state ==> pre.owned_of(target).len() == 0,
    ensures
        post.wf(),
{
    assert forall|a: Seq<char>, i: int|
        0 <= i < post.owned_of(a).len() implies #[trigger] post.owned_entry_ok(a, i) by {
        assert(pre.owned_entry_ok(a, i));
    }
    assert forall|x: u128| post.owner_of@.contains_key(x) implies #[trigger] post.token_entry_ok(
        x,
    ) by {
        assert(pre.token_entry_ok(x));
    }
    assert forall|x: u128| #[trigger] post.idx_entry_ok(x) by {
        assert(pre.idx_entry_ok(x));
    }
    assert forall|x: u128| #[trigger] post.appr_entry_ok(x) by {
        assert(pre.appr_entry_ok(x));
    }
    assert forall|o: Seq<char>, op: Seq<char>| #[trigger] post.afa_entry_ok(o, op) by {
        assert(pre.afa_entry_ok(o, op));
    }
    assert forall|a: Seq<char>|
        (#[trigger] post.owned_of(a)).len() <= post.bal_of(a) as int / post.spec_unit() && (
        post.wl_of(a) ==> post.owned_of(a).len() == 0) by {
        assert(pre.owned_of(a).len() <= pre.bal_of(a) as int / pre.spec_unit());
        assert(pre.wl_of(a) ==> pre.owned_of(a).len() == 0);
        assert(post.owned_of(a) == pre.owned_of(a));
    }
}

/// The effect of a fractional transfer is insensitive to a later change
/// of the allowance table alone.
pub proof fn lemma_sync_effect_frame(
    pre: Ledger,
    mid: Ledger,
    post: Ledger,
    from: Seq<char>,
    to: Seq<char>,
    amount: u128,
)
    requires
        sync_effect(pre, mid, from, to, amount),
        post.balances == mid.balances,
        post.owner_of == mid.owner_of,
        post.owned == mid.owned,
        post.owned_index == mid.owned_index,
        post.get_approved == mid.get_approved,
        post.approved_for_all == mid.approved_for_all,
        post.whitelist == mid.whitelist,
        post.locked == mid.locked,
        post.minted == mid.minted,
        post.owner == mid.owner,
        post.name == mid.name,
        post.symbol == mid.symbol,
        post.base_token_uri == mid.base_token_uri,
        post.decimals == mid.decimals,
        post.total_supply == mid.total_supply,
    ensures
        sync_effect(pre, post, from, to, amount),
{
    let k = sync_burns(&pre, from, to, amount);
    let m = sync_mints(&pre, from, to, amount);
    let s = pre.owned_of(from);
    assert forall|a: Seq<char>| a != from && a != to implies post.bal_of(a) == pre.bal_of(a) by {
        assert(mid.bal_of(a) == pre.bal_of(a));
        assert(post.bal_of(a) == mid.bal_of(a));
    }
    assert forall|a: Seq<char>| a != from && a != to implies post.owned_of(a) == pre.owned_of(
        a,
    ) by {
        assert(mid.owned_of(a) == pre.owned_of(a));
        assert(post.owned_of(a) == mid.owned_of(a));
    }
    assert forall|j: int| s.len() - k <= j < s.len() implies !post.owner_of@.contains_key(
        #[trigger] s[j],
    ) && !post.get_approved@.contains_key(s[j]) && !post.owned_index@.contains_key(s[j]) by {
        assert(!mid.owner_of@.contains_key(s[j]));
        assert(!mid.get_approved@.contains_key(s[j]));
        assert(!mid.owned_index@.contains_key(s[j]));
    }
    assert forall|x: u128|
        pre.minted < x <= pre.minted + m implies #[trigger] post.owner_of@.contains_key(x)
            && post.owner_str_of(x) == to by {
        assert(mid.owner_of@.contains_key(x) && mid.owner_str_of(x) == to);
        assert(post.owner_str_of(x) == mid.owner_str_of(x));
    }
    assert(post.owned_of(to) == mid.owned_of(to));
    assert(from != to ==> post.owned_of(from) == mid.owned_of(from));
    assert(post.get_approved@ == pre.get_approved@.remove_keys(victim_set(s, k)));
}


/// The untouched-table frame of the approval, grant, lock and metadata
/// operations: the ledger core is not involved at all.
pub open spec fn core_unchanged(pre: &Ledger, post: &Ledger) -> bool {
    &&& post.balances == pre.balances
    &&& post.owner_of == pre.owner_of
    &&& post.owned == pre.owned
    &&& post.owned_index == pre.owned_index
    &&& post.minted == pre.minted
    &&& config_unchanged(pre, post)
}

/// The outcome of the dual-mode transfer for given parties and argument.
pub open spec fn dual_ok(
    pre: Ledger,
    post: Ledger,
    caller: Seq<char>,
    from: Seq<char>,
    to: Seq<char>,
    v: u128,
    r: Result<Response, ContractError>,
) -> bool {
    match r {
        Ok(_) => {
            &&& tf_err(&pre, caller, from, to, v) is None
            &&& (if v <= pre.minted {
                token_ok(pre, post, from, to, v)
            } else {
                sync_effect(pre, post, from, to, v) && spent_ok(pre, post, from, caller, v)
            })
        },
        Err(e) => post == pre && tf_err(&pre, caller, from, to, v) == Some(e),
    }
}

/// The outcome of a plain fractional transfer.
pub open spec fn frac_ok(
    pre: Ledger,
    post: Ledger,
    from: Seq<char>,
    to: Seq<char>,
    amount: u128,
    r: Result<Response, ContractError>,
) -> bool {
    match r {
        Ok(_) => sync_err(&pre, from, to, amount) is None && sync_ok(pre, post, from, to, amount),
        Err(e) => post == pre && sync_err(&pre, from, to, amount) == Some(e),
    }
}

/// The outcome of the dual-mode approval.
pub open spec fn approval_ok(
    pre: Ledger,
    post: Ledger,
    caller: Seq<char>,
    spender: Seq<char>,
    v: u128,
    r: Result<Response, ContractError>,
) -> bool {
    match r {
        Ok(_) => {
            &&& approve_err(&pre, caller, v) is None
            &&& core_unchanged(&pre, &post)
            &&& post.whitelist == pre.whitelist
            &&& post.locked == pre.locked
            &&& post.approved_for_all == pre.approved_for_all
            &&& (if 0 < v && v <= pre.minted {
                &&& post.get_approved@.contains_key(v)
                &&& post.approved_of(v) == spender
                &&& (forall|x: u128|
                    x != v ==> (post.get_approved@.contains_key(x)
                        <==> pre.get_approved@.contains_key(x)) && #[trigger] post.approved_of(x)
                        == pre.approved_of(x))
                &&& post.allowance == pre.allowance
            } else {
                &&& post.allowance@ == pre.allowance@.insert((caller, spender), v)
                &&& post.get_approved == pre.get_approved
            })
        },
        Err(e) => post == pre && approve_err(&pre, caller, v) == Some(e),
    }
}

/// The outcome of setting or clearing a blanket operator grant.
pub open spec fn operator_ok(
    pre: Ledger,
    post: Ledger,
    caller: Seq<char>,
    operator: Seq<char>,
    state: bool,
    r: Result<Response, ContractError>,
) -> bool {
    match r {
        Ok(_) => {
            &&& operator.len() > 0
            &&& post.approved_for_all@ == pre.approved_for_all@.insert((caller, operator), state)
            &&& core_unchanged(&pre, &post)
            &&& post.whitelist == pre.whitelist
            &&& post.locked == pre.locked
            &&& post.get_approved == pre.get_approved
            &&& post.allowance == pre.allowance
        },
        Err(e) => post == pre && e == ContractError::InvalidRecipient && operator.len() == 0,
    }
}

/// The outcome of an exemption update.
pub open spec fn whitelist_ok(
    pre: Ledger,
    post: Ledger,
    caller: Seq<char>,
    target: Seq<char>,
    state: bool,
    r: Result<Response, ContractError>,
) -> bool {
    match r {
        Ok(_) => {
            &&& swl_err(&pre, caller, target, state) is None
            &&& post.whitelist@ == pre.whitelist@.insert(target, state)
            &&& (state ==> post.owned_of(target).len() == 0)
            &&& (state ==> post.owner_of@ == pre.owner_of@.remove_keys(
                victim_set(pre.owned_of(target), pre.owned_of(target).len() as int),
            ) && post.owned_index@ == pre.owned_index@.remove_keys(
                victim_set(pre.owned_of(target), pre.owned_of(target).len() as int),
            ) && post.get_approved@ == pre.get_approved@.remove_keys(
                victim_set(pre.owned_of(target), pre.owned_of(target).len() as int),
            ))
            &&& (!state ==> post.owned_of(target) == pre.owned_of(target) && post.owner_of
                == pre.owner_of && post.owned_index == pre.owned_index && post.get_approved
                == pre.get_approved)
            &&& (forall|a: Seq<char>| a != target ==> post.owned_of(a) == pre.owned_of(a))
            &&& post.balances == pre.balances
            &&& post.minted == pre.minted
            &&& config_unchanged(&pre, &post)
        },
        Err(e) => post == pre && swl_err(&pre, caller, target, state) == Some(e),
    }
}

/// The outcome of a lock update.
pub open spec fn lock_ok(
    pre: Ledger,
    post: Ledger,
    caller: Seq<char>,
    token_id: u128,
    state: bool,
    r: Result<Response, ContractError>,
) -> bool {
    match r {
        Ok(_) => {
            &&& caller == pre.owner_str_of(token_id)
            &&& post.locked@ == pre.locked@.insert(token_id, state)
            &&& core_unchanged(&pre, &post)
            &&& post.whitelist == pre.whitelist
            &&& post.get_approved == pre.get_approved
            &&& post.allowance == pre.allowance
            &&& post.approved_for_all == pre.approved_for_all
        },
        Err(e) => post == pre && e == ContractError::Unauthorized && caller != pre.owner_str_of(
            token_id,
        ),
    }
}

/// The outcome of replacing the metadata prefix.
pub open spec fn uri_ok(
    pre: Ledger,
    post: Ledger,
    caller: Seq<char>,
    uri: Seq<char>,
    r: Result<Response, ContractError>,
) -> bool {
    match r {
        Ok(_) => {
            &&& caller == pre.owner@
            &&& post.base_token_uri@ == uri
            &&& post.balances == pre.balances
            &&& post.owner_of == pre.owner_of
            &&& post.owned == pre.owned
            &&& post.owned_index == pre.owned_index
            &&& post.minted == pre.minted
            &&& post.whitelist == pre.whitelist
            &&& post.locked == pre.locked
            &&& post.get_approved == pre.get_approved
            &&& post.allowance == pre.allowance
            &&& post.approved_for_all == pre.approved_for_all
            &&& post.owner == pre.owner
            &&& post.total_supply == pre.total_supply
            &&& post.decimals == pre.decimals
        },
        Err(e) => post == pre && e == ContractError::Unauthorized && caller != pre.owner@,
    }
}

/// What `execute` does for every message: the exact transition on success,
/// the exact first applicable error — with the state unchanged — on
/// failure.
pub open spec fn execute_ok(
    pre: Ledger,
    post: Ledger,
    sender: Seq<char>,
    msg: ExecuteMsg,
    r: Result<Response, ContractError>,
) -> bool {
    match msg {
        ExecuteMsg::TransferFrom { owner, recipient, amount } => dual_ok(
            pre,
            post,
            sender,
            owner@,
            recipient@,
            amount,
            r,
        ),
        ExecuteMsg::TransferNft { recipient, token_id } => dual_ok(
            pre,
            post,
            sender,
            sender,
            recipient@,
            token_id,
            r,
        ),
        ExecuteMsg::SendNft { contract, token_id } => dual_ok(
            pre,
            post,
            sender,
            sender,
            contract@,
            token_id,
            r,
        ),
        ExecuteMsg::Transfer { recipient, amount } => frac_ok(
            pre,
            post,
            sender,
            recipient@,
            amount,
            r,
        ),
        ExecuteMsg::Send { contract, amount } => frac_ok(pre, post, sender, contract@, amount, r),
        ExecuteMsg::IncreaseAllowance { spender, amount } => approval_ok(
            pre,
            post,
            sender,
            spender@,
            amount,
            r,
        ),
        ExecuteMsg::Approve { spender, token_id } => approval_ok(
            pre,
            post,
            sender,
            spender@,
            token_id,
            r,
        ),
        ExecuteMsg::ApproveAll { operator } => operator_ok(pre, post, sender, operator@, true, r),
        ExecuteMsg::RevokeAll { operator } => operator_ok(pre, post, sender, operator@, false, r),
        ExecuteMsg::SetWhitelist { target, state } => whitelist_ok(
            pre,
            post,
            sender,
            target@,
            state,
            r,
        ),
        ExecuteMsg::SetLock { token_id, state } => lock_ok(pre, post, sender, token_id, state, r),
        ExecuteMsg::SetBaseTokenUri { uri } => uri_ok(pre, post, sender, uri@, r),
    }
}


impl Ledger {
    /// Removes token `id` from its owner's sequence by swap-with-last, and
    /// clears its ownership, index and approval entries.
    fn detach_token(&mut self, id: u128, from: &String)
        requires
            structure_ok(old(self)),
            old(self).owner_of@.contains_key(id),
            old(self).owner_str_of(id) == from@,
        ensures
            structure_ok(final(self)),
            final(self).owned_of(from@) == swap_removed(
                old(self).owned_of(from@),
                old(self).owned_index@[id] as int,
            ),
            forall|a: Seq<char>| a != from@ ==> final(self).owned_of(a) == old(self).owned_of(a),
            final(self).owner_of@ == old(self).owner_of@.remove(id),
            final(self).owned_index@ == old(self).owned_index@.insert(
                old(self).owned_of(from@).last(),
                old(self).owned_index@[id],
            ).remove(id),
            final(self).get_approved@ == old(self).get_approved@.remove(id),
            final(self).balances == old(self).balances,
            final(self).minted == old(self).minted,
            config_unchanged(old(self), final(self)),
            auth_unchanged(old(self), final(self)),
    {
        proof {
            assert(old(self).token_entry_ok(id));
        }
        let ghost pre = *old(self);
        let ghost s = pre.owned_of(from@);
        let ghost gi = pre.owned_index@[id] as int;
        let idx_u: u128 = match self.owned_index.get(&id) {
            Some(v) => *v,
            None => vstd::pervasive::unreached(),
        };
        let taken = self.owned.take(from);
        let (keyf, mut vf) = match taken {
            Some(p) => p,
            None => vstd::pervasive::unreached(),
        };
        proof {
            assert(vf@ == s);
        }
        let n = vf.len();
        let last = vf[n - 1];
        self.owned_index.set(last, idx_u);
        proof {
            assert(idx_u <= usize::MAX as u128);
        }
        let i = idx_u as usize;
        vf.set(i, last);
        vf.pop();
        self.owned.insert(keyf, vf);
        self.owned_index.take(&id);
        self.owner_of.take(&id);
        self.get_approved.take(&id);
        proof {
            assert(self.owned_of(from@) == swap_removed(s, gi));
            assert(self.owned_index@ =~= pre.owned_index@.insert(s.last(), (gi as u128)).remove(
                id,
            ));
            // The structural invariants survive the swap-remove.
            assert forall|a: Seq<char>, j: int|
                0 <= j < self.owned_of(a).len() implies #[trigger] self.owned_entry_ok(a, j) by {
                if a == from@ {
                    assert(pre.owned_entry_ok(from@, s.len() - 1));
                    if j == gi {
                        // The vacated slot now holds the old last element.
                        assert(self.owned_of(a)[j] == s.last());
                        assert(s.last() != id);
                    } else {
                        assert(pre.owned_entry_ok(from@, j));
                        assert(self.owned_of(a)[j] == s[j]);
                        assert(s[j] != id);
                        assert(s[j] != s.last()) by {
                            assert(pre.owned_entry_ok(from@, s.len() - 1));
                        }
                    }
                } else {
                    assert(pre.owned_entry_ok(a, j));
                    let e = pre.owned_of(a)[j];
                    assert(pre.owner_str_of(e) == a);
                    assert(e != id);
                    if pre.owner_of@.contains_key(s.last()) {
                        assert(pre.token_entry_ok(s.last()));
                    }
                    assert(pre.owned_entry_ok(from@, s.len() - 1));
                    assert(e != s.last());
                }
            }
            assert forall|x: u128| self.owner_of@.contains_key(x) implies #[trigger] self.token_entry_ok(
                x,
            ) by {
                assert(x != id);
                assert(pre.token_entry_ok(x));
                let a = pre.owner_str_of(x);
                if a == from@ {
                    let jx = pre.owned_index@[x] as int;
                    assert(s[jx] == x);
                    assert(jx != gi);
                    assert(pre.owned_entry_ok(from@, s.len() - 1));
                    if jx == s.len() - 1 {
                        // x was the last element and now sits in the vacated slot.
                        assert(x == s.last());
                        assert(gi < s.len() - 1);
                        assert(self.owned_index@[x] == gi as u128);
                        assert(self.owned_of(from@)[gi] == x);
                    } else {
                        assert(x != s.last());
                        assert(self.owned_of(from@)[jx] == x);
                    }
                } else {
                    assert(pre.owned_entry_ok(from@, s.len() - 1));
                    assert(x != s.last());
                }
            }
            assert forall|x: u128| #[trigger] self.idx_entry_ok(x) by {
                if self.owned_index@.contains_key(x) {
                    assert(x != id);
                    if x == s.last() {
                        assert(pre.owned_entry_ok(from@, s.len() - 1));
                    } else {
                        assert(pre.idx_entry_ok(x));
                    }
                }
            }
            assert forall|x: u128| #[trigger] self.appr_entry_ok(x) by {
                if self.get_approved@.contains_key(x) {
                    assert(x != id);
                    assert(pre.appr_entry_ok(x));
                }
            }
            assert forall|o: Seq<char>, op: Seq<char>| #[trigger] self.afa_entry_ok(o, op) by {
                assert(pre.afa_entry_ok(o, op));
            }
        }
    }

    /// Appends token `id`, currently unowned, to the recipient's sequence
    /// and records its ownership and index entries.
    fn attach_token(&mut self, id: u128, to: &String)
        requires
            structure_ok(old(self)),
            !old(self).owner_of@.contains_key(id),
            1 <= id <= old(self).minted,
            to@.len() > 0,
        ensures
            structure_ok(final(self)),
            final(self).owned_of(to@) == old(self).owned_of(to@).push(id),
            forall|a: Seq<char>| a != to@ ==> final(self).owned_of(a) == old(self).owned_of(a),
            final(self).owner_of@ == old(self).owner_of@.insert(id, *to),
            final(self).owned_index@ == old(self).owned_index@.insert(
                id,
                old(self).owned_of(to@).len() as u128,
            ),
            final(self).get_approved == old(self).get_approved,
            final(self).balances == old(self).balances,
            final(self).minted == old(self).minted,
            config_unchanged(old(self), final(self)),
            auth_unchanged(old(self), final(self)),
    {
        let ghost pre = *old(self);
        let taken = self.owned.take(to);
        let (keyt, mut vt) = match taken {
            Some(p) => p,
            None => (to.clone(), Vec::new()),
        };
        proof {
            assert(vt@ == pre.owned_of(to@));
        }
        vt.push(id);
        let pos = vt.len() - 1;
        self.owned_index.set(id, pos as u128);
        self.owned.insert(keyt, vt);
        self.owner_of.set(id, to.clone());
        proof {
            assert forall|a: Seq<char>, j: int|
                0 <= j < self.owned_of(a).len() implies #[trigger] self.owned_entry_ok(a, j) by {
                if a == to@ {
                    if j < self.owned_of(a).len() - 1 {
                        assert(pre.owned_entry_ok(to@, j));
                        assert(pre.owned_of(to@)[j] != id);
                        assert(self.owned_of(a)[j] == pre.owned_of(to@)[j]);
                    } else {
                        assert(self.owned_of(a)[j] == id);
                    }
                } else {
                    assert(pre.owned_entry_ok(a, j));
                    assert(pre.owned_of(a)[j] != id);
                }
            }
            assert forall|x: u128| self.owner_of@.contains_key(x) implies #[trigger] self.token_entry_ok(
                x,
            ) by {
                if x == id {
                    assert(self.owned_of(to@)[pre.owned_of(to@).len() as int] == id);
                } else {
                    assert(pre.token_entry_ok(x));
                    let a = pre.owner_str_of(x);
                    if a == to@ {
                        let jx = pre.owned_index@[x] as int;
                        assert(self.owned_of(to@)[jx] == x);
                    }
                }
            }
            assert forall|x: u128| #[trigger] self.idx_entry_ok(x) by {
                if self.owned_index@.contains_key(x) && x != id {
                    assert(pre.idx_entry_ok(x));
                }
            }
            assert forall|x: u128| #[trigger] self.appr_entry_ok(x) by {
                assert(pre.appr_entry_ok(x));
            }
            assert forall|o: Seq<char>, op: Seq<char>| #[trigger] self.afa_entry_ok(o, op) by {
                assert(pre.afa_entry_ok(o, op));
            }
        }
    }

    /// Allocates the next token id for `to`. The id collision check is
    /// provably unreachable in a well-formed state, so the result is
    /// always the fresh id.
    fn mint_one(&mut self, to: &String) -> (r: Result<u128, crate::error::ContractError>)
        requires
            structure_ok(old(self)),
            old(self).minted < u128::MAX,
            to@.len() > 0,
        ensures
            structure_ok(final(self)),
            r == Ok::<u128, crate::error::ContractError>((old(self).minted + 1) as u128),
            mint_step(*old(self), *final(self), to@, (old(self).minted + 1) as u128),
    {
        let id = self.minted + 1;
        self.minted = id;
        proof {
            // Raising the counter cannot invalidate any live token entry.
            assert forall|a: Seq<char>, j: int|
                0 <= j < self.owned_of(a).len() implies #[trigger] self.owned_entry_ok(a, j) by {
                assert(old(self).owned_entry_ok(a, j));
            }
            assert forall|x: u128| self.owner_of@.contains_key(x) implies #[trigger] self.token_entry_ok(
                x,
            ) by {
                assert(old(self).token_entry_ok(x));
            }
            assert forall|x: u128| #[trigger] self.idx_entry_ok(x) by {
                assert(old(self).idx_entry_ok(x));
            }
            assert forall|x: u128| #[trigger] self.appr_entry_ok(x) by {
                assert(old(self).appr_entry_ok(x));
            }
            assert forall|o: Seq<char>, op: Seq<char>| #[trigger] self.afa_entry_ok(o, op) by {
                assert(old(self).afa_entry_ok(o, op));
            }
        }
        let already = match self.owner_of.get(&id) {
            Some(_) => true,
            None => false,
        };
        if already {
            proof {
                assert(old(self).token_entry_ok(id));
                assert(false);
            }
            return Err(crate::error::ContractError::AlreadyExists);
        }
        self.attach_token(id, to);
        Ok(id)
    }

    /// Burns the last token of `from`'s owned sequence. The caller has
    /// already checked that the victim is not locked.
    fn burn_one(&mut self, from: &String) -> (id: u128)
        requires
            structure_ok(old(self)),
            old(self).owned_of(from@).len() > 0,
        ensures
            structure_ok(final(self)),
            burn_step(*old(self), *final(self), from@, id),
    {
        let ghost pre = *old(self);
        let ghost s = pre.owned_of(from@);
        let last = {
            let v = match self.owned.get(from) {
                Some(v) => v,
                None => vstd::pervasive::unreached(),
            };
            v[v.len() - 1]
        };
        proof {
            assert(pre.owned_entry_ok(from@, s.len() - 1));
            assert(pre.owned_index@[last] == (s.len() - 1) as u128);
        }
        self.detach_token(last, from);
        proof {
            assert(swap_removed(s, s.len() - 1) =~= s.drop_last());
            assert(self.owned_index@ =~= pre.owned_index@.insert(
                last,
                (s.len() - 1) as u128,
            ).remove(last));
            assert(pre.owned_index@.insert(last, (s.len() - 1) as u128).remove(last)
                =~= pre.owned_index@.remove(last));
        }
        last
    }

    /// The synchronization engine: moves `amount` fractional units from
    /// `from` to `to`, burns one of the sender's tokens (newest first) for
    /// every whole-unit boundary the debit crossed — never more than the
    /// sender holds — and mints one fresh token for the recipient per
    /// boundary the credit crossed. An exempt party skips its burn or mint
    /// side entirely. A failure, enumerated exactly by `sync_err`, leaves
    /// the state unchanged.
    #[verifier::loop_isolation(false)]
    #[verifier::rlimit(60)]
    pub fn synchronize_transfer(
        &mut self,
        from: String,
        to: String,
        amount: u128,
        label: Action,
        spender: Option<String>,
    ) -> (r: Result<Response, ContractError>)
        requires
            old(self).wf(),
        ensures
            final(self).wf(),
            final(self).minted >= old(self).minted,
            match r {
                Ok(resp) => {
                    &&& sync_err(old(self), from@, to@, amount) is None
                    &&& sync_ok(*old(self), *final(self), from@, to@, amount)
                    &&& sync_resp_ok(resp, label, from@, to@, amount, spender, *old(self))
                },
                Err(e) => *final(self) == *old(self) && sync_err(old(self), from@, to@, amount)
                    == Some(e),
            },
    {
        let ghost pre = *old(self);
        let ghost s = pre.owned_of(from@);
        let ghost u = pre.spec_unit();
        if from.as_str().unicode_len() == 0 {
            return Err(ContractError::InvalidSender);
        }
        if to.as_str().unicode_len() == 0 {
            return Err(ContractError::InvalidRecipient);
        }
        let unit = self.get_unit();
        proof {
            crate::state::lemma_pow10_pos(pre.decimals as nat);
        }
        let bf = self.balance_of(&from);
        if bf < amount {
            return Err(ContractError::InsufficientBalance);
        }
        let from_is_to = from.eq(&to);
        if !from_is_to {
            let bt0 = self.balance_of(&to);
            if amount > u128::MAX - bt0 {
                return Err(ContractError::ArithmeticOverflow);
            }
        }
        let wl_from = match self.whitelist.get(&from) {
            Some(b) => *b,
            None => false,
        };
        let wl_to = match self.whitelist.get(&to) {
            Some(b) => *b,
            None => false,
        };
        // How many burns the debit asks for, capped at what is there.
        let bf_after = if from_is_to {
            bf
        } else {
            bf - amount
        };
        proof {
            lemma_div_is_ordered(bf_after as int, bf as int, u);
        }
        let diff = bf / unit - bf_after / unit;
        let own_len: usize = match self.owned.get(&from) {
            Some(v) => v.len(),
            None => 0,
        };
        proof {
            assert(own_len as int == s.len());
        }
        let len128 = own_len as u128;
        let k: u128 = if wl_from {
            0
        } else if diff <= len128 {
            diff
        } else {
            len128
        };
        proof {
            assert(k as int == sync_burns(&pre, from@, to@, amount));
        }
        // Reject before mutating when a burn victim is locked.
        let k_us = k as usize;
        let mut jj: usize = 0;
        while jj < k_us
            invariant
                jj <= k_us,
                k_us <= own_len,
                own_len as int == s.len(),
                *self == pre,
                pre.wf(),
                k_us as int == sync_burns(&pre, from@, to@, amount),
                forall|q: int| 0 <= q < jj ==> !pre.locked_of(#[trigger] s[s.len() - 1 - q]),
            decreases k_us - jj,
        {
            let v = match self.owned.get(&from) {
                Some(v) => v,
                None => vstd::pervasive::unreached(),
            };
            proof {
                assert(v@ == s);
            }
            let id = v[own_len - 1 - jj];
            let is_locked = match self.locked.get(&id) {
                Some(b) => *b,
                None => false,
            };
            if is_locked {
                proof {
                    let p = s.len() - 1 - jj;
                    assert(s.len() - k_us <= p < s.len() && pre.locked_of(s[p]));
                }
                return Err(ContractError::LockedToken);
            }
            jj = jj + 1;
        }
        proof {
            assert forall|j: int| s.len() - k <= j < s.len() implies !pre.locked_of(
                #[trigger] s[j],
            ) by {
                assert(!pre.locked_of(s[s.len() - 1 - (s.len() - 1 - j)]));
            }
        }
        // How many mints the credit asks for.
        let mut m: u128 = 0;
        if !from_is_to && !wl_to {
            let bt = self.balance_of(&to);
            proof {
                lemma_div_is_ordered(bt as int, bt + amount, u);
            }
            m = (bt + amount) / unit - bt / unit;
        }
        proof {
            assert(m as int == sync_mints(&pre, from@, to@, amount));
        }
        if m > u128::MAX - self.minted {
            return Err(ContractError::ArithmeticOverflow);
        }
        proof {
            assert(sync_err(&pre, from@, to@, amount) is None);
        }
        // Commit: debit, credit, then the capped burn and mint loops.
        crate::state::bal_set(&mut self.balances, &from, bf - amount);
        let bt2 = self.balance_of(&to);
        proof {
            assert(bt2 + amount <= u128::MAX);
        }
        crate::state::bal_set(&mut self.balances, &to, bt2 + amount);
        let ghost mid0 = *self;
        proof {
            // Balance writes leave the ownership structure untouched.
            assert forall|a: Seq<char>, q: int|
                0 <= q < self.owned_of(a).len() implies #[trigger] self.owned_entry_ok(a, q) by {
                assert(pre.owned_entry_ok(a, q));
            }
            assert forall|x: u128| self.owner_of@.contains_key(x) implies #[trigger] self.token_entry_ok(
                x,
            ) by {
                assert(pre.token_entry_ok(x));
            }
            assert forall|x: u128| #[trigger] self.idx_entry_ok(x) by {
                assert(pre.idx_entry_ok(x));
            }
            assert forall|x: u128| #[trigger] self.appr_entry_ok(x) by {
                assert(pre.appr_entry_ok(x));
            }
            assert forall|o: Seq<char>, op: Seq<char>| #[trigger] self.afa_entry_ok(o, op) by {
                assert(pre.afa_entry_ok(o, op));
            }
            assert(crate::state::sum_vals(mid0.balances.kvs()) == pre.total_supply as int);
            assert(mid0.bal_of(from@) as int == post_bal_from(&pre, from@, to@, amount));
            assert(mid0.bal_of(to@) as int == post_bal_to(&pre, from@, to@, amount));
            assert(victim_set(s, 0) =~= Set::<u128>::empty());
            assert(pre.owner_of@.remove_keys(victim_set(s, 0)) =~= pre.owner_of@);
            assert(pre.owned_index@.remove_keys(victim_set(s, 0)) =~= pre.owned_index@);
            assert(pre.get_approved@.remove_keys(victim_set(s, 0)) =~= pre.get_approved@);
            assert(s.take(s.len() - 0) =~= s);
        }
        let mut events: Vec<NftEvent> = Vec::new();
        let mut j: u128 = 0;
        while j < k
            invariant
                0 <= j <= k,
                k as int == sync_burns(&pre, from@, to@, amount),
                k <= s.len(),
                structure_ok(self),
                self.balances == mid0.balances,
                self.minted == pre.minted,
                self.whitelist == pre.whitelist,
                self.allowance == pre.allowance,
                self.approved_for_all == pre.approved_for_all,
                self.locked == pre.locked,
                self.owner == pre.owner,
                self.name == pre.name,
                self.symbol == pre.symbol,
                self.base_token_uri == pre.base_token_uri,
                self.decimals == pre.decimals,
                self.total_supply == pre.total_supply,
                self.owned_of(from@) == s.take(s.len() - j),
                forall|a: Seq<char>| a != from@ ==> self.owned_of(a) == pre.owned_of(a),
                self.owner_of@ == pre.owner_of@.remove_keys(victim_set(s, j as int)),
                self.owned_index@ == pre.owned_index@.remove_keys(victim_set(s, j as int)),
                self.get_approved@ == pre.get_approved@.remove_keys(victim_set(s, j as int)),
                events@.len() == j,
                forall|q: int|
                    0 <= q < j ==> ((#[trigger] events@[q]) matches NftEvent::Burn {
                        from: ef,
                        token_id: ei,
                    } && ef@ == from@ && ei == s[s.len() - 1 - q]),
            decreases k - j,
        {
            let ghost before = *self;
            let id = self.burn_one(&from);
            proof {
                assert(before.owned_of(from@) == s.take(s.len() - j as int));
                assert(id == s[s.len() - 1 - j as int]);
                assert(self.owned_of(from@) =~= s.take(s.len() - (j + 1) as int));
                assert(victim_set(s, (j + 1) as int) =~= victim_set(s, j as int).insert(id));
                assert(self.owner_of@ =~= pre.owner_of@.remove_keys(
                    victim_set(s, (j + 1) as int),
                ));
                assert(self.owned_index@ =~= pre.owned_index@.remove_keys(
                    victim_set(s, (j + 1) as int),
                ));
                assert(self.get_approved@ =~= pre.get_approved@.remove_keys(
                    victim_set(s, (j + 1) as int),
                ));
            }
            events.push(NftEvent::Burn { from: from.clone(), token_id: id });
            j = j + 1;
        }
        let ghost mid = *self;
        let mut t: u128 = 0;
        while t < m
            invariant
                0 <= t <= m,
                m as int == sync_mints(&pre, from@, to@, amount),
                k as int == sync_burns(&pre, from@, to@, amount),
                pre.minted + m <= u128::MAX,
                to@.len() > 0,
                structure_ok(self),
                mid.minted == pre.minted,
                self.minted as int == pre.minted + t,
                self.balances == mid.balances,
                self.whitelist == pre.whitelist,
                self.allowance == pre.allowance,
                self.approved_for_all == pre.approved_for_all,
                self.locked == pre.locked,
                self.owner == pre.owner,
                self.name == pre.name,
                self.symbol == pre.symbol,
                self.base_token_uri == pre.base_token_uri,
                self.decimals == pre.decimals,
                self.total_supply == pre.total_supply,
                self.get_approved == mid.get_approved,
                self.owned_of(to@) == mid.owned_of(to@) + Seq::new(
                    t as nat,
                    |q: int| (pre.minted + 1 + q) as u128,
                ),
                forall|a: Seq<char>| a != to@ ==> self.owned_of(a) == mid.owned_of(a),
                self.owner_of@.remove_keys(id_range_set(pre.minted, pre.minted + t))
                    == mid.owner_of@,
                self.owned_index@.remove_keys(id_range_set(pre.minted, pre.minted + t))
                    == mid.owned_index@,
                forall|x: u128|
                    pre.minted < x <= pre.minted + t ==> #[trigger] self.owner_of@.contains_key(x)
                        && self.owner_str_of(x) == to@,
                events@.len() == k + t,
                forall|q: int|
                    0 <= q < k ==> ((#[trigger] events@[q]) matches NftEvent::Burn {
                        from: ef,
                        token_id: ei,
                    } && ef@ == from@ && ei == s[s.len() - 1 - q]),
                forall|q: int|
                    0 <= q < t ==> ((#[trigger] events@[k + q]) matches NftEvent::Mint {
                        to: et,
                        token_id: ei,
                    } && et@ == to@ && ei == pre.minted + 1 + q),
            decreases m - t,
        {
            let ghost before = *self;
            let id = match self.mint_one(&to) {
                Ok(i) => i,
                Err(_) => vstd::pervasive::unreached(),
            };
            proof {
                assert(id == pre.minted + 1 + t);
                assert(self.owned_of(to@) =~= mid.owned_of(to@) + Seq::new(
                    (t + 1) as nat,
                    |q: int| (pre.minted + 1 + q) as u128,
                ));
                assert(self.owner_of@ == before.owner_of@.insert(id, self.owner_of@[id]));
                assert(self.owned_index@ == before.owned_index@.insert(
                    id,
                    before.owned_of(to@).len() as u128,
                ));
                if before.owner_of@.contains_key(id) {
                    assert(before.token_entry_ok(id));
                }
                if before.owned_index@.contains_key(id) {
                    assert(before.idx_entry_ok(id));
                    assert(before.token_entry_ok(id));
                }
                assert(self.owner_of@.remove_keys(id_range_set(pre.minted, pre.minted + (t + 1)))
                    =~= before.owner_of@.remove_keys(id_range_set(pre.minted, pre.minted + t)));
                assert(self.owned_index@.remove_keys(
                    id_range_set(pre.minted, pre.minted + (t + 1)),
                ) =~= before.owned_index@.remove_keys(id_range_set(pre.minted, pre.minted + t)));
            }
            events.push(NftEvent::Mint { to: to.clone(), token_id: id });
            t = t + 1;
        }
        proof {
            // The full invariant is restored: the balance sum is untouched
            // and the ownership counts follow the crossed boundaries.
            assert(s.take(s.len() - 0) =~= s);
            if from@ == to@ {
                assert(k == 0 && m == 0);
                assert(self.owned_of(to@) =~= s);
            }
            assert forall|a: Seq<char>|
                {
                    &&& (#[trigger] self.owned_of(a)).len() <= self.bal_of(a) as int
                        / self.spec_unit()
                    &&& (self.wl_of(a) ==> self.owned_of(a).len() == 0)
                } by {
                lemma_div_pos_is_pos(self.bal_of(a) as int, u);
                if a == from@ && a == to@ {
                    assert(self.owned_of(a) == pre.owned_of(a));
                } else if a == from@ {
                    assert(self.owned_of(a) == s.take(s.len() - k));
                    if !pre.wl_of(from@) {
                        lemma_div_is_ordered(bf_after as int, bf as int, u);
                    }
                } else if a == to@ {
                    assert(mid.owned_of(a) == pre.owned_of(a));
                } else {
                    assert(self.owned_of(a) == pre.owned_of(a));
                    assert(self.bal_of(a) == pre.bal_of(a));
                }
            }
            assert(self.wf());
            assert(self.get_approved@ == pre.get_approved@.remove_keys(victim_set(s, k as int)));
            // The burned ids were live before, hence small; minting fresh
            // ids cannot resurrect them.
            assert forall|q: int| s.len() - k <= q < s.len() implies !self.owner_of@.contains_key(
                #[trigger] s[q],
            ) && !self.get_approved@.contains_key(s[q]) && !self.owned_index@.contains_key(
                s[q],
            ) by {
                assert(pre.owned_entry_ok(from@, q));
                assert(pre.token_entry_ok(s[q]));
                assert(s.len() - k as int <= q < s.len() && s[q] == s[q]);
                assert(victim_set(s, k as int).contains(s[q]));
                assert(s[q] <= pre.minted);
                assert(!id_range_set(pre.minted, pre.minted + m).contains(s[q]));
                assert(!mid.owner_of@.contains_key(s[q]));
                assert(!mid.owned_index@.contains_key(s[q]));
                assert(!mid.get_approved@.contains_key(s[q]));
            }
            assert(sync_ok(pre, *self, from@, to@, amount));
        }
        Ok(
            Response::Transferred {
                label,
                from,
                to,
                amount,
                spender,
                events,
            },
        )
    }
}


/// The error a token approval reports: a live nonzero id demands the
/// caller own the token or hold a blanket grant; a fractional allowance
/// is always settable by its grantor.
pub open spec fn approve_err(pre: &Ledger, caller: Seq<char>, v: u128) -> Option<ContractError> {
    if 0 < v <= pre.minted {
        if caller != pre.owner_str_of(v) && !pre.afa_of(pre.owner_str_of(v), caller) {
            Some(ContractError::Unauthorized)
        } else {
            None
        }
    } else {
        None
    }
}

/// The error an exemption update reports: only the contract owner may
/// call, and enabling exemption force-burns the target's tokens, which a
/// lock forbids.
pub open spec fn swl_err(pre: &Ledger, caller: Seq<char>, target: Seq<char>, state: bool) -> Option<
    ContractError,
> {
    if caller != pre.owner@ {
        Some(ContractError::Unauthorized)
    } else if state && exists|j: int|
        0 <= j < pre.owned_of(target).len() && pre.locked_of(#[trigger] pre.owned_of(target)[j]) {
        Some(ContractError::LockedToken)
    } else {
        None
    }
}

/// The record an exemption update returns: one burn event per force-burned
/// token, newest first.
pub open spec fn swl_resp_ok(
    resp: Response,
    target: Seq<char>,
    state: bool,
    s: Seq<u128>,
    k: int,
) -> bool {
    match resp {
        Response::WhitelistUpdated { target: t2, state: st2, events } => {
            &&& t2@ == target
            &&& st2 == state
            &&& events@.len() == k
            &&& (forall|q: int|
                0 <= q < k ==> ((#[trigger] events@[q]) matches NftEvent::Burn {
                    from: ef,
                    token_id: ei,
                } && ef@ == target && ei == s[s.len() - 1 - q]))
        },
        _ => false,
    }
}

/// Whether creating `native * 10^decimals` units would overflow.
pub open spec fn inst_overflow(decimals: u8, native: u128) -> bool {
    ||| pow10(decimals as nat) > u128::MAX
    ||| native * pow10(decimals as nat) > u128::MAX
}

impl Ledger {
    /// Moves one specific whole token, and exactly one unit of fractional
    /// balance, from its owner to the recipient, clearing the token's
    /// approval; the recipient must not be exempt, lest the exemption list
    /// become a mint bypass. Failures are enumerated by `token_err` and
    /// leave the state unchanged. The parties are host-validated
    /// identities, hence non-empty; the dual-mode entry checks this.
    #[verifier::rlimit(60)]
    pub fn transfer_token(
        &mut self,
        caller: &String,
        from: String,
        to: String,
        id: u128,
        label: Action,
    ) -> (r: Result<Response, ContractError>)
        requires
            old(self).wf(),
            from@.len() > 0,
            to@.len() > 0,
        ensures
            final(self).wf(),
            final(self).minted == old(self).minted,
            match r {
                Ok(resp) => {
                    &&& token_err(old(self), caller@, from@, to@, id) is None
                    &&& token_ok(*old(self), *final(self), from@, to@, id)
                    &&& token_resp_ok(resp, label, from@, to@, id, old(self).spec_unit())
                },
                Err(e) => *final(self) == *old(self) && token_err(
                    old(self),
                    caller@,
                    from@,
                    to@,
                    id,
                ) == Some(e),
            },
    {
        let ghost pre = *old(self);
        let ghost u = pre.spec_unit();
        let owner_match = match self.owner_of.get(&id) {
            Some(o) => from.eq(o),
            None => false,
        };
        if !owner_match {
            return Err(ContractError::InvalidSender);
        }
        proof {
            assert(pre.owner_of@.contains_key(id));
            assert(pre.token_entry_ok(id));
        }
        let pair = AddrPair { owner: from.clone(), spender: caller.clone() };
        let is_afa = match self.approved_for_all.get(&pair) {
            Some(b) => *b,
            None => false,
        };
        let approved_match = match self.get_approved.get(&id) {
            Some(sp) => caller.eq(sp),
            None => caller.as_str().unicode_len() == 0,
        };
        proof {
            if caller@.len() == 0 {
                assert(caller@ =~= Seq::<char>::empty());
            }
        }
        let authorized = caller.eq(&from) || is_afa || approved_match;
        if !authorized {
            return Err(ContractError::Unauthorized);
        }
        let wl_to = match self.whitelist.get(&to) {
            Some(b) => *b,
            None => false,
        };
        if wl_to {
            return Err(ContractError::InvalidRecipient);
        }
        let unit = self.get_unit();
        let bf = self.balance_of(&from);
        let ghost s = pre.owned_of(from@);
        let ghost gi = pre.owned_index@[id] as int;
        proof {
            crate::state::lemma_pow10_pos(pre.decimals as nat);
            // The owner holds at least one token, hence at least one unit.
            assert(s[gi] == id);
            if (pre.bal_of(from@) as int) < u {
                lemma_basic_div(pre.bal_of(from@) as int, u);
                assert(s.len() <= pre.bal_of(from@) as int / u);
                assert(false);
            }
        }
        let from_is_to = from.eq(&to);
        proof {
            if from@ != to@ && pre.balances@.contains_key(to@) {
                // The supply bound caps the sum of the two balances.
                crate::store::lemma_map_of_domain(pre.balances.kvs(), from@);
                crate::store::lemma_map_of_domain(pre.balances.kvs(), to@);
                let i = choose|i: int|
                    0 <= i < pre.balances.kvs().len() && pre.balances.kvs()[i].0.abs() == from@;
                let jx = choose|jx: int|
                    0 <= jx < pre.balances.kvs().len() && pre.balances.kvs()[jx].0.abs() == to@;
                crate::store::lemma_map_of_index(pre.balances.kvs(), i);
                crate::store::lemma_map_of_index(pre.balances.kvs(), jx);
                crate::state::lemma_sum_two(pre.balances.kvs(), i, jx);
            }
        }
        crate::state::bal_set(&mut self.balances, &from, bf - unit);
        let bt2 = self.balance_of(&to);
        proof {
            assert(bt2 + unit <= u128::MAX);
        }
        crate::state::bal_set(&mut self.balances, &to, bt2 + unit);
        proof {
            // Balance writes leave the ownership structure untouched.
            assert forall|a: Seq<char>, q: int|
                0 <= q < self.owned_of(a).len() implies #[trigger] self.owned_entry_ok(a, q) by {
                assert(pre.owned_entry_ok(a, q));
            }
            assert forall|x: u128| self.owner_of@.contains_key(x) implies #[trigger] self.token_entry_ok(
                x,
            ) by {
                assert(pre.token_entry_ok(x));
            }
            assert forall|x: u128| #[trigger] self.idx_entry_ok(x) by {
                assert(pre.idx_entry_ok(x));
            }
            assert forall|x: u128| #[trigger] self.appr_entry_ok(x) by {
                assert(pre.appr_entry_ok(x));
            }
            assert forall|o: Seq<char>, op: Seq<char>| #[trigger] self.afa_entry_ok(o, op) by {
                assert(pre.afa_entry_ok(o, op));
            }
        }
        self.detach_token(id, &from);
        let ghost det = *self;
        self.attach_token(id, &to);
        proof {
            lemma_div_minus_one(pre.bal_of(from@) as int, u);
            lemma_div_plus_one(pre.bal_of(to@) as int, u);
            assert forall|a: Seq<char>|
                (#[trigger] self.owned_of(a)).len() <= self.bal_of(a) as int / self.spec_unit()
                    && (self.wl_of(a) ==> self.owned_of(a).len() == 0) by {
                lemma_div_pos_is_pos(self.bal_of(a) as int, u);
                if a == from@ && a == to@ {
                    assert(self.owned_of(a).len() == s.len());
                    assert(pre.owned_of(a).len() <= pre.bal_of(a) as int / u);
                } else if a == from@ {
                    assert(self.owned_of(a) == swap_removed(s, gi));
                    assert(pre.owned_of(a).len() <= pre.bal_of(a) as int / u);
                } else if a == to@ {
                    assert(self.owned_of(a) == pre.owned_of(a).push(id));
                    assert(pre.owned_of(a).len() <= pre.bal_of(a) as int / u);
                } else {
                    assert(self.owned_of(a) == pre.owned_of(a));
                    assert(self.bal_of(a) == pre.bal_of(a));
                    assert(pre.owned_of(a).len() <= pre.bal_of(a) as int / u);
                    assert(pre.wl_of(a) ==> pre.owned_of(a).len() == 0);
                }
            }
            assert(self.wf());
            assert forall|x: u128|
                #![trigger self.owner_str_of(x)]
                #![trigger self.owner_of@.contains_key(x)]
                x != id implies (self.owner_of@.contains_key(x) <==> pre.owner_of@.contains_key(x))
                    && self.owner_str_of(x) == pre.owner_str_of(x) by {
                assert(det.owner_of@ == pre.owner_of@.remove(id));
            }
            assert(token_ok(pre, *self, from@, to@, id));
        }
        let mut events: Vec<NftEvent> = Vec::new();
        events.push(NftEvent::Transfer { from: from.clone(), to: to.clone(), token_id: id });
        Ok(Response::TokenTransferred { label, from, to, token_id: id, amount: unit, events })
    }

    /// The dual-mode transfer: a numeric argument not exceeding the minted
    /// counter is a token id, anything larger is a fractional amount whose
    /// spend is charged to the caller's allowance over the owner (unless
    /// it is the unlimited sentinel). The same call can change meaning as
    /// the counter grows; callers must mind the hazard.
    pub fn transfer_from(
        &mut self,
        caller: &String,
        from: String,
        to: String,
        amount_or_id: u128,
        label: Option<Action>,
    ) -> (r: Result<Response, ContractError>)
        requires
            old(self).wf(),
        ensures
            final(self).wf(),
            final(self).minted >= old(self).minted,
            match r {
                Ok(resp) => {
                    &&& tf_err(old(self), caller@, from@, to@, amount_or_id) is None
                    &&& (if amount_or_id <= old(self).minted {
                        token_ok(*old(self), *final(self), from@, to@, amount_or_id)
                            && token_resp_ok(
                            resp,
                            token_label_of(label),
                            from@,
                            to@,
                            amount_or_id,
                            old(self).spec_unit(),
                        )
                    } else {
                        sync_effect(*old(self), *final(self), from@, to@, amount_or_id)
                            && spent_ok(*old(self), *final(self), from@, caller@, amount_or_id)
                            && sync_resp_ok(
                            resp,
                            frac_label_of(label),
                            from@,
                            to@,
                            amount_or_id,
                            Some(*caller),
                            *old(self),
                        )
                    })
                },
                Err(e) => *final(self) == *old(self) && tf_err(
                    old(self),
                    caller@,
                    from@,
                    to@,
                    amount_or_id,
                ) == Some(e),
            },
    {
        if from.as_str().unicode_len() == 0 {
            return Err(ContractError::InvalidSender);
        }
        if to.as_str().unicode_len() == 0 {
            return Err(ContractError::InvalidRecipient);
        }
        if amount_or_id <= self.minted {
            let lab = match label {
                Some(a) => a,
                None => Action::Transfer,
            };
            self.transfer_token(caller, from, to, amount_or_id, lab)
        } else {
            let ghost pre = *old(self);
            let pair = AddrPair { owner: from.clone(), spender: caller.clone() };
            let al = match self.allowance.get(&pair) {
                Some(v) => *v,
                None => 0,
            };
            let unlimited = al == u128::MAX;
            if !unlimited && al < amount_or_id {
                return Err(ContractError::InsufficientAllowance);
            }
            let lab = match label {
                Some(a) => a,
                None => Action::TransferFrom,
            };
            let res = self.synchronize_transfer(
                from.clone(),
                to,
                amount_or_id,
                lab,
                Some(caller.clone()),
            );
            match res {
                Ok(resp) => {
                    let ghost mid = *self;
                    if !unlimited {
                        self.allowance.set(
                            AddrPair { owner: from, spender: caller.clone() },
                            al - amount_or_id,
                        );
                        proof {
                            lemma_wf_frame(mid, *self);
                            lemma_sync_effect_frame(pre, mid, *self, from@, to@, amount_or_id);
                        }
                    }
                    Ok(resp)
                },
                Err(e) => Err(e),
            }
        }
    }

    /// A plain fractional transfer from the caller's own balance; no
    /// allowance is involved.
    pub fn transfer(&mut self, sender: String, recipient: String, amount: u128) -> (r: Result<
        Response,
        ContractError,
    >)
        requires
            old(self).wf(),
        ensures
            final(self).wf(),
            final(self).minted >= old(self).minted,
            match r {
                Ok(resp) => {
                    &&& sync_err(old(self), sender@, recipient@, amount) is None
                    &&& sync_ok(*old(self), *final(self), sender@, recipient@, amount)
                    &&& sync_resp_ok(
                        resp,
                        Action::Transfer,
                        sender@,
                        recipient@,
                        amount,
                        None,
                        *old(self),
                    )
                },
                Err(e) => *final(self) == *old(self) && sync_err(
                    old(self),
                    sender@,
                    recipient@,
                    amount,
                ) == Some(e),
            },
    {
        self.synchronize_transfer(sender, recipient, amount, Action::Transfer, None)
    }

    /// A fractional transfer to a contract address; the host delivers the
    /// receive notification.
    pub fn send(&mut self, sender: String, contract: String, amount: u128) -> (r: Result<
        Response,
        ContractError,
    >)
        requires
            old(self).wf(),
        ensures
            final(self).wf(),
            final(self).minted >= old(self).minted,
            match r {
                Ok(resp) => {
                    &&& sync_err(old(self), sender@, contract@, amount) is None
                    &&& sync_ok(*old(self), *final(self), sender@, contract@, amount)
                    &&& sync_resp_ok(
                        resp,
                        Action::Send,
                        sender@,
                        contract@,
                        amount,
                        None,
                        *old(self),
                    )
                },
                Err(e) => *final(self) == *old(self) && sync_err(
                    old(self),
                    sender@,
                    contract@,
                    amount,
                ) == Some(e),
            },
    {
        self.synchronize_transfer(sender, contract, amount, Action::Send, None)
    }

    /// The dual-mode transfer addressed to a contract; the host delivers
    /// the receive notification.
    pub fn send_nft(&mut self, sender: String, contract: String, token_id: u128) -> (r: Result<
        Response,
        ContractError,
    >)
        requires
            old(self).wf(),
        ensures
            final(self).wf(),
            final(self).minted >= old(self).minted,
            match r {
                Ok(resp) => {
                    &&& tf_err(old(self), sender@, sender@, contract@, token_id) is None
                    &&& (if token_id <= old(self).minted {
                        token_ok(*old(self), *final(self), sender@, contract@, token_id)
                            && token_resp_ok(
                            resp,
                            Action::Send,
                            sender@,
                            contract@,
                            token_id,
                            old(self).spec_unit(),
                        )
                    } else {
                        sync_effect(*old(self), *final(self), sender@, contract@, token_id)
                            && spent_ok(*old(self), *final(self), sender@, sender@, token_id)
                            && sync_resp_ok(
                            resp,
                            Action::Send,
                            sender@,
                            contract@,
                            token_id,
                            Some(sender),
                            *old(self),
                        )
                    })
                },
                Err(e) => *final(self) == *old(self) && tf_err(
                    old(self),
                    sender@,
                    sender@,
                    contract@,
                    token_id,
                ) == Some(e),
            },
    {
        let c = sender.clone();
        self.transfer_from(&c, sender, contract, token_id, Some(Action::Send))
    }

    /// Dual-mode approval: a live nonzero token id sets that token's single
    /// approved spender (owner or operator only); any other value sets the
    /// caller's fractional allowance for the spender unconditionally. The
    /// caller is a host-authenticated identity, hence non-empty.
    pub fn approve(&mut self, sender: &String, spender: String, amount_or_id: u128) -> (r: Result<
        Response,
        ContractError,
    >)
        requires
            old(self).wf(),
            sender@.len() > 0,
        ensures
            final(self).wf(),
            final(self).minted == old(self).minted,
            match r {
                Err(e) => *final(self) == *old(self) && approve_err(
                    old(self),
                    sender@,
                    amount_or_id,
                ) == Some(e),
                Ok(resp) => {
                    &&& approve_err(old(self), sender@, amount_or_id) is None
                    &&& final(self).balances == old(self).balances
                    &&& final(self).owner_of == old(self).owner_of
                    &&& final(self).owned == old(self).owned
                    &&& final(self).owned_index == old(self).owned_index
                    &&& final(self).whitelist == old(self).whitelist
                    &&& final(self).locked == old(self).locked
                    &&& final(self).approved_for_all == old(self).approved_for_all
                    &&& config_unchanged(old(self), final(self))
                    &&& (if 0 < amount_or_id && amount_or_id <= old(self).minted {
                        final(self).get_approved@ == old(self).get_approved@.insert(
                            amount_or_id,
                            spender,
                        ) && final(self).allowance == old(self).allowance && (
                        resp matches Response::Approved { sender: s2, spender: sp2, amount_or_id: v2 }
                            && s2@ == old(self).owner_str_of(amount_or_id) && sp2 == spender && v2
                            == amount_or_id)
                    } else {
                        final(self).allowance@ == old(self).allowance@.insert(
                            (sender@, spender@),
                            amount_or_id,
                        ) && final(self).get_approved == old(self).get_approved && (
                        resp matches Response::Approved { sender: s2, spender: sp2, amount_or_id: v2 }
                            && s2 == *sender && sp2 == spender && v2 == amount_or_id)
                    })
                },
            },
    {
        let ghost pre = *old(self);
        if amount_or_id <= self.minted && amount_or_id > 0 {
            let owner_s: String = match self.owner_of.get(&amount_or_id) {
                Some(o) => o.clone(),
                None => String::new(),
            };
            let pair = AddrPair { owner: owner_s.clone(), spender: sender.clone() };
            let is_afa = match self.approved_for_all.get(&pair) {
                Some(b) => *b,
                None => false,
            };
            if !sender.eq(&owner_s) && !is_afa {
                return Err(ContractError::Unauthorized);
            }
            proof {
                // An authorized caller implies the id is live: the caller is
                // non-empty, and no grant is ever held from the empty identity.
                if !self.owner_of@.contains_key(amount_or_id) {
                    assert(pre.afa_entry_ok(owner_s@, sender@));
                    assert(false);
                }
            }
            self.get_approved.set(amount_or_id, spender.clone());
            proof {
                lemma_wf_frame(pre, *self);
            }
            Ok(Response::Approved { sender: owner_s, spender, amount_or_id })
        } else {
            self.allowance.set(
                AddrPair { owner: sender.clone(), spender: spender.clone() },
                amount_or_id,
            );
            proof {
                lemma_wf_frame(pre, *self);
            }
            Ok(Response::Approved { sender: sender.clone(), spender, amount_or_id })
        }
    }

    /// Grants the operator blanket transfer authority over the caller's
    /// tokens. The empty identity is not a valid operator; the caller is a
    /// host-authenticated identity, hence non-empty.
    pub fn approve_all(&mut self, sender: &String, operator: String) -> (r: Result<
        Response,
        ContractError,
    >)
        requires
            old(self).wf(),
            sender@.len() > 0,
        ensures
            final(self).wf(),
            final(self).minted == old(self).minted,
            match r {
                Err(e) => *final(self) == *old(self) && e == ContractError::InvalidRecipient
                    && operator@.len() == 0,
                Ok(resp) => {
                    &&& operator@.len() > 0
                    &&& final(self).approved_for_all@ == old(self).approved_for_all@.insert(
                        (sender@, operator@),
                        true,
                    )
                    &&& final(self).balances == old(self).balances
                    &&& final(self).owner_of == old(self).owner_of
                    &&& final(self).owned == old(self).owned
                    &&& final(self).owned_index == old(self).owned_index
                    &&& final(self).whitelist == old(self).whitelist
                    &&& final(self).locked == old(self).locked
                    &&& final(self).get_approved == old(self).get_approved
                    &&& final(self).allowance == old(self).allowance
                    &&& config_unchanged(old(self), final(self))
                    &&& (resp matches Response::OperatorUpdated { sender: s2, operator: o2, state }
                        && s2 == *sender && o2 == operator && state == true)
                },
            },
    {
        let ghost pre = *old(self);
        if operator.as_str().unicode_len() == 0 {
            return Err(ContractError::InvalidRecipient);
        }
        self.approved_for_all.set(
            AddrPair { owner: sender.clone(), spender: operator.clone() },
            true,
        );
        proof {
            lemma_wf_frame(pre, *self);
        }
        Ok(Response::OperatorUpdated { sender: sender.clone(), operator, state: true })
    }

    /// Clears a blanket operator grant.
    pub fn revoke_all(&mut self, sender: &String, operator: String) -> (r: Result<
        Response,
        ContractError,
    >)
        requires
            old(self).wf(),
        ensures
            final(self).wf(),
            final(self).minted == old(self).minted,
            match r {
                Err(e) => *final(self) == *old(self) && e == ContractError::InvalidRecipient
                    && operator@.len() == 0,
                Ok(resp) => {
                    &&& operator@.len() > 0
                    &&& final(self).approved_for_all@ == old(self).approved_for_all@.insert(
                        (sender@, operator@),
                        false,
                    )
                    &&& final(self).balances == old(self).balances
                    &&& final(self).owner_of == old(self).owner_of
                    &&& final(self).owned == old(self).owned
                    &&& final(self).owned_index == old(self).owned_index
                    &&& final(self).whitelist == old(self).whitelist
                    &&& final(self).locked == old(self).locked
                    &&& final(self).get_approved == old(self).get_approved
                    &&& final(self).allowance == old(self).allowance
                    &&& config_unchanged(old(self), final(self))
                    &&& (resp matches Response::OperatorUpdated { sender: s2, operator: o2, state }
                        && s2 == *sender && o2 == operator && state == false)
                },
            },
    {
        let ghost pre = *old(self);
        if operator.as_str().unicode_len() == 0 {
            return Err(ContractError::InvalidRecipient);
        }
        self.approved_for_all.set(
            AddrPair { owner: sender.clone(), spender: operator.clone() },
            false,
        );
        proof {
            lemma_wf_frame(pre, *self);
        }
        Ok(Response::OperatorUpdated { sender: sender.clone(), operator, state: false })
    }

    /// Sets or clears an identity's exemption flag; only the contract
    /// owner may call. Enabling exemption first force-burns every token
    /// the identity owns, so that exemption can never be parlayed into
    /// minting fresh tokens without crossing unit boundaries.
    #[verifier::loop_isolation(false)]
    #[verifier::rlimit(60)]
    pub fn set_whitelist(&mut self, sender: &String, target: String, state: bool) -> (r: Result<
        Response,
        ContractError,
    >)
        requires
            old(self).wf(),
        ensures
            final(self).wf(),
            final(self).minted == old(self).minted,
            match r {
                Err(e) => *final(self) == *old(self) && swl_err(old(self), sender@, target@, state)
                    == Some(e),
                Ok(resp) => {
                    &&& swl_err(old(self), sender@, target@, state) is None
                    &&& final(self).whitelist@ == old(self).whitelist@.insert(target@, state)
                    &&& (state ==> final(self).owned_of(target@).len() == 0)
                    &&& (!state ==> final(self).owned_of(target@) == old(self).owned_of(target@)
                        && final(self).owner_of == old(self).owner_of && final(self).owned_index
                        == old(self).owned_index && final(self).get_approved == old(
                        self,
                    ).get_approved)
                    &&& (forall|a: Seq<char>|
                        a != target@ ==> final(self).owned_of(a) == old(self).owned_of(a))
                    &&& (state ==> forall|j: int|
                        0 <= j < old(self).owned_of(target@).len()
                            ==> !final(self).owner_of@.contains_key(
                            #[trigger] old(self).owned_of(target@)[j],
                        ))
                    &&& (state ==> final(self).owner_of@ == old(self).owner_of@.remove_keys(
                        victim_set(
                            old(self).owned_of(target@),
                            old(self).owned_of(target@).len() as int,
                        ),
                    ) && final(self).owned_index@ == old(self).owned_index@.remove_keys(
                        victim_set(
                            old(self).owned_of(target@),
                            old(self).owned_of(target@).len() as int,
                        ),
                    ) && final(self).get_approved@ == old(self).get_approved@.remove_keys(
                        victim_set(
                            old(self).owned_of(target@),
                            old(self).owned_of(target@).len() as int,
                        ),
                    ))
                    &&& final(self).balances == old(self).balances
                    &&& final(self).allowance == old(self).allowance
                    &&& final(self).approved_for_all == old(self).approved_for_all
                    &&& final(self).locked == old(self).locked
                    &&& config_unchanged(old(self), final(self))
                    &&& swl_resp_ok(
                        resp,
                        target@,
                        state,
                        old(self).owned_of(target@),
                        if state {
                            old(self).owned_of(target@).len() as int
                        } else {
                            0
                        },
                    )
                },
            },
    {
        let ghost pre = *old(self);
        let ghost s = pre.owned_of(target@);
        if !sender.eq(&self.owner) {
            return Err(ContractError::Unauthorized);
        }
        let mut events: Vec<NftEvent> = Vec::new();
        if state {
            let own_len: usize = match self.owned.get(&target) {
                Some(v) => v.len(),
                None => 0,
            };
            let mut jj: usize = 0;
            while jj < own_len
                invariant
                    jj <= own_len,
                    own_len as int == s.len(),
                    *self == pre,
                    forall|q: int| 0 <= q < jj ==> !pre.locked_of(#[trigger] s[q]),
                decreases own_len - jj,
            {
                let v = match self.owned.get(&target) {
                    Some(v) => v,
                    None => vstd::pervasive::unreached(),
                };
                proof {
                    assert(v@ == s);
                }
                let idq = v[jj];
                let lk = match self.locked.get(&idq) {
                    Some(b) => *b,
                    None => false,
                };
                if lk {
                    proof {
                        assert(0 <= jj < s.len() && pre.locked_of(s[jj as int]));
                    }
                    return Err(ContractError::LockedToken);
                }
                jj = jj + 1;
            }
            proof {
                assert(victim_set(s, 0) =~= Set::<u128>::empty());
                assert(pre.owner_of@.remove_keys(victim_set(s, 0)) =~= pre.owner_of@);
                assert(pre.owned_index@.remove_keys(victim_set(s, 0)) =~= pre.owned_index@);
                assert(pre.get_approved@.remove_keys(victim_set(s, 0)) =~= pre.get_approved@);
                assert(s.take(s.len() - 0) =~= s);
            }
            let mut j: usize = 0;
            while j < own_len
                invariant
                    0 <= j <= own_len,
                    own_len as int == s.len(),
                    structure_ok(self),
                    self.balances == pre.balances,
                    self.minted == pre.minted,
                    self.whitelist == pre.whitelist,
                    self.allowance == pre.allowance,
                    self.approved_for_all == pre.approved_for_all,
                    self.locked == pre.locked,
                    self.owner == pre.owner,
                    self.name == pre.name,
                    self.symbol == pre.symbol,
                    self.base_token_uri == pre.base_token_uri,
                    self.decimals == pre.decimals,
                    self.total_supply == pre.total_supply,
                    self.owned_of(target@) == s.take(s.len() - j),
                    forall|a: Seq<char>| a != target@ ==> self.owned_of(a) == pre.owned_of(a),
                    self.owner_of@ == pre.owner_of@.remove_keys(victim_set(s, j as int)),
                    self.owned_index@ == pre.owned_index@.remove_keys(victim_set(s, j as int)),
                    self.get_approved@ == pre.get_approved@.remove_keys(victim_set(s, j as int)),
                    events@.len() == j,
                    forall|q: int|
                        0 <= q < j ==> ((#[trigger] events@[q]) matches NftEvent::Burn {
                            from: ef,
                            token_id: ei,
                        } && ef@ == target@ && ei == s[s.len() - 1 - q]),
                decreases own_len - j,
            {
                let id = self.burn_one(&target);
                proof {
                    assert(id == s[s.len() - 1 - j as int]);
                    assert(self.owned_of(target@) =~= s.take(s.len() - (j + 1) as int));
                    assert(victim_set(s, (j + 1) as int) =~= victim_set(s, j as int).insert(id));
                    assert(self.owner_of@ =~= pre.owner_of@.remove_keys(
                        victim_set(s, (j + 1) as int),
                    ));
                    assert(self.owned_index@ =~= pre.owned_index@.remove_keys(
                        victim_set(s, (j + 1) as int),
                    ));
                    assert(self.get_approved@ =~= pre.get_approved@.remove_keys(
                        victim_set(s, (j + 1) as int),
                    ));
                }
                events.push(NftEvent::Burn { from: target.clone(), token_id: id });
                j = j + 1;
            }
        }
        proof {
            if state {
                assert forall|a: Seq<char>|
                    (#[trigger] self.owned_of(a)).len() <= self.bal_of(a) as int / self.spec_unit()
                        && (self.wl_of(a) ==> self.owned_of(a).len() == 0) by {
                    if a == target@ {
                        assert(self.owned_of(a).len() == 0);
                        crate::state::lemma_pow10_pos(pre.decimals as nat);
                        lemma_div_pos_is_pos(self.bal_of(a) as int, pre.spec_unit());
                    } else {
                        assert(self.owned_of(a) == pre.owned_of(a));
                        assert(pre.owned_of(a).len() <= pre.bal_of(a) as int / pre.spec_unit());
                        assert(pre.wl_of(a) ==> pre.owned_of(a).len() == 0);
                    }
                }
                assert(self.wf());
            }
        }
        let ghost mid = *self;
        self.whitelist.set(target.clone(), state);
        proof {
            lemma_wf_wl(mid, *self, target@, state);
            if state {
                assert forall|j2: int| 0 <= j2 < s.len() implies !self.owner_of@.contains_key(
                    #[trigger] s[j2],
                ) by {
                    assert(victim_set(s, s.len() as int).contains(s[j2]));
                }
            }
        }
        Ok(Response::WhitelistUpdated { target, state, events })
    }

    /// Sets or clears a token's lock flag; only the token's current owner
    /// may call. A locked token cannot be burned.
    pub fn set_lock(&mut self, sender: &String, token_id: u128, state: bool) -> (r: Result<
        Response,
        ContractError,
    >)
        requires
            old(self).wf(),
        ensures
            final(self).wf(),
            final(self).minted == old(self).minted,
            match r {
                Err(e) => *final(self) == *old(self) && e == ContractError::Unauthorized && sender@
                    != old(self).owner_str_of(token_id),
                Ok(resp) => {
                    &&& sender@ == old(self).owner_str_of(token_id)
                    &&& final(self).locked@ == old(self).locked@.insert(token_id, state)
                    &&& final(self).balances == old(self).balances
                    &&& final(self).owner_of == old(self).owner_of
                    &&& final(self).owned == old(self).owned
                    &&& final(self).owned_index == old(self).owned_index
                    &&& final(self).whitelist == old(self).whitelist
                    &&& final(self).get_approved == old(self).get_approved
                    &&& final(self).allowance == old(self).allowance
                    &&& final(self).approved_for_all == old(self).approved_for_all
                    &&& config_unchanged(old(self), final(self))
                    &&& (resp matches Response::LockUpdated { target, state: st2 } && target
                        == token_id && st2 == state)
                },
            },
    {
        let ghost pre = *old(self);
        let owner_s: String = match self.owner_of.get(&token_id) {
            Some(o) => o.clone(),
            None => String::new(),
        };
        if !sender.eq(&owner_s) {
            return Err(ContractError::Unauthorized);
        }
        self.locked.set(token_id, state);
        proof {
            lemma_wf_frame(pre, *self);
        }
        Ok(Response::LockUpdated { target: token_id, state })
    }

    /// Replaces the metadata prefix; only the contract owner may call.
    pub fn set_base_token_uri(&mut self, sender: &String, uri: String) -> (r: Result<
        Response,
        ContractError,
    >)
        requires
            old(self).wf(),
        ensures
            final(self).wf(),
            final(self).minted == old(self).minted,
            match r {
                Err(e) => *final(self) == *old(self) && e == ContractError::Unauthorized && sender@
                    != old(self).owner@,
                Ok(resp) => {
                    &&& sender@ == old(self).owner@
                    &&& final(self).base_token_uri == uri
                    &&& final(self).balances == old(self).balances
                    &&& final(self).owner_of == old(self).owner_of
                    &&& final(self).owned == old(self).owned
                    &&& final(self).owned_index == old(self).owned_index
                    &&& final(self).whitelist == old(self).whitelist
                    &&& final(self).get_approved == old(self).get_approved
                    &&& final(self).allowance == old(self).allowance
                    &&& final(self).approved_for_all == old(self).approved_for_all
                    &&& final(self).locked == old(self).locked
                    &&& final(self).owner == old(self).owner
                    &&& final(self).name == old(self).name
                    &&& final(self).symbol == old(self).symbol
                    &&& final(self).decimals == old(self).decimals
                    &&& final(self).total_supply == old(self).total_supply
                    &&& final(self).minted == old(self).minted
                    &&& (resp matches Response::UriUpdated)
                },
            },
    {
        let ghost pre = *old(self);
        if !sender.eq(&self.owner) {
            return Err(ContractError::Unauthorized);
        }
        self.base_token_uri = uri;
        proof {
            lemma_wf_frame(pre, *self);
        }
        Ok(Response::UriUpdated)
    }

    /// Creates the ledger: the total supply is the native supply scaled by
    /// the unit size and is credited entirely to the creator, with no
    /// whole token minted yet. Fails only when that computation overflows.
    #[verifier::loop_isolation(false)]
    pub fn instantiate(msg: InstantiateMsg, sender: String) -> (r: Result<
        (Ledger, Response),
        ContractError,
    >)
        ensures
            match r {
                Ok(p) => {
                    &&& !inst_overflow(msg.decimals, msg.total_native_supply)
                    &&& p.0.wf()
                    &&& p.0.total_supply as int == msg.total_native_supply * pow10(
                        msg.decimals as nat,
                    )
                    &&& p.0.decimals == msg.decimals
                    &&& p.0.minted == 0
                    &&& p.0.owner == sender
                    &&& p.0.name == msg.name
                    &&& p.0.symbol == msg.symbol
                    &&& p.0.base_token_uri@ == Seq::<char>::empty()
                    &&& p.0.bal_of(sender@) == p.0.total_supply
                    &&& (forall|a: Seq<char>| a != sender@ ==> p.0.bal_of(a) == 0)
                    &&& (forall|a: Seq<char>| p.0.owned_of(a) == Seq::<u128>::empty())
                    &&& (forall|x: u128| !p.0.owner_of@.contains_key(x))
                    &&& (forall|a: Seq<char>| !p.0.wl_of(a))
                    &&& (forall|x: u128| !p.0.locked_of(x))
                    &&& (forall|o: Seq<char>, sp: Seq<char>| p.0.allowance_of(o, sp) == 0)
                    &&& (forall|o: Seq<char>, sp: Seq<char>| !p.0.afa_of(o, sp))
                    &&& (forall|x: u128| p.0.approved_of(x) == Seq::<char>::empty())
                    &&& (p.1 matches Response::Instantiated { to, amount } && to@ == sender@
                        && amount == p.0.total_supply)
                },
                Err(e) => e == ContractError::ArithmeticOverflow && inst_overflow(
                    msg.decimals,
                    msg.total_native_supply,
                ),
            },
    {
        let limit = u128::MAX / 10;
        proof {
            lemma_fundamental_div_mod(u128::MAX as int, 10);
        }
        let mut unitv: u128 = 1;
        let mut i: u8 = 0;
        while i < msg.decimals
            invariant
                i <= msg.decimals,
                unitv as nat == pow10(i as nat),
            decreases msg.decimals - i,
        {
            if unitv > limit {
                proof {
                    assert(10 * unitv > u128::MAX);
                    crate::state::lemma_pow10_mono((i + 1) as nat, msg.decimals as nat);
                }
                return Err(ContractError::ArithmeticOverflow);
            }
            unitv = unitv * 10;
            i = i + 1;
        }
        let native = msg.total_native_supply;
        if native > 0 {
            let cap = u128::MAX / native;
            proof {
                lemma_fundamental_div_mod(u128::MAX as int, native as int);
            }
            if unitv > cap {
                proof {
                    assert(native * unitv > u128::MAX) by (nonlinear_arith)
                        requires
                            native >= 1,
                            unitv as int >= u128::MAX as int / native as int + 1,
                            u128::MAX as int == native * ((u128::MAX as int) / (native as int)) + (
                            (u128::MAX as int) % (native as int)),
                            ((u128::MAX as int) % (native as int)) < (native as int);
                }
                return Err(ContractError::ArithmeticOverflow);
            }
            proof {
                assert(native * unitv <= u128::MAX) by (nonlinear_arith)
                    requires
                        native >= 1,
                        unitv as int <= u128::MAX as int / native as int,
                        u128::MAX as int == native * ((u128::MAX as int) / (native as int)) + (
                        (u128::MAX as int) % (native as int)),
                        ((u128::MAX as int) % (native as int)) >= 0;
            }
        }
        let total = native * unitv;
        let mut balances: AssocMap<String, u128> = AssocMap::new();
        balances.insert(sender.clone(), total);
        proof {
            crate::state::lemma_sum_push(Seq::<(String, u128)>::empty(), (sender, total));
        }
        let ledger = Ledger {
            owner: sender.clone(),
            name: msg.name,
            symbol: msg.symbol,
            base_token_uri: String::new(),
            decimals: msg.decimals,
            total_supply: total,
            minted: 0,
            balances,
            owner_of: AssocMap::new(),
            owned: AssocMap::new(),
            owned_index: AssocMap::new(),
            get_approved: AssocMap::new(),
            approved_for_all: AssocMap::new(),
            allowance: AssocMap::new(),
            whitelist: AssocMap::new(),
            locked: AssocMap::new(),
        };
        proof {
            crate::state::lemma_pow10_pos(msg.decimals as nat);
            assert forall|a: Seq<char>, q: int|
                0 <= q < ledger.owned_of(a).len() implies #[trigger] ledger.owned_entry_ok(
                a,
                q,
            ) by {}
            assert forall|x: u128| ledger.owner_of@.contains_key(x) implies #[trigger] ledger.token_entry_ok(
                x,
            ) by {}
            assert forall|x: u128| #[trigger] ledger.idx_entry_ok(x) by {}
            assert forall|a: Seq<char>|
                (#[trigger] ledger.owned_of(a)).len() <= ledger.bal_of(a) as int
                    / ledger.spec_unit() && (ledger.wl_of(a) ==> ledger.owned_of(a).len() == 0) by {
                lemma_div_pos_is_pos(ledger.bal_of(a) as int, ledger.spec_unit());
            }
            assert(ledger.wf());
        }
        Ok((ledger, Response::Instantiated { to: sender.clone(), amount: total }))
    }

    /// Dispatches one mutating message on behalf of a host-authenticated
    /// caller (hence non-empty). A failing operation reports the first
    /// applicable error and leaves the state unchanged; the supply, the
    /// unit size and the contract owner never change after creation.
    pub fn execute(&mut self, sender: String, msg: ExecuteMsg) -> (r: Result<
        Response,
        ContractError,
    >)
        requires
            old(self).wf(),
            sender@.len() > 0,
        ensures
            final(self).wf(),
            final(self).minted >= old(self).minted,
            final(self).total_supply == old(self).total_supply,
            final(self).decimals == old(self).decimals,
            final(self).owner == old(self).owner,
            r is Err ==> *final(self) == *old(self),
            execute_ok(*old(self), *final(self), sender@, msg, r),
    {
        match msg {
            ExecuteMsg::Approve { spender, token_id } => self.approve(&sender, spender, token_id),
            ExecuteMsg::ApproveAll { operator } => self.approve_all(&sender, operator),
            ExecuteMsg::IncreaseAllowance { spender, amount } => self.approve(
                &sender,
                spender,
                amount,
            ),
            ExecuteMsg::RevokeAll { operator } => self.revoke_all(&sender, operator),
            ExecuteMsg::TransferFrom { owner, recipient, amount } => self.transfer_from(
                &sender,
                owner,
                recipient,
                amount,
                None,
            ),
            ExecuteMsg::Transfer { recipient, amount } => self.transfer(sender, recipient, amount),
            ExecuteMsg::TransferNft { recipient, token_id } => {
                let c = sender.clone();
                self.transfer_from(&c, sender, recipient, token_id, Some(Action::Transfer))
            },
            ExecuteMsg::Send { contract, amount } => self.send(sender, contract, amount),
            ExecuteMsg::SendNft { contract, token_id } => self.send_nft(
                sender,
                contract,
                token_id,
            ),
            ExecuteMsg::SetLock { token_id, state } => self.set_lock(&sender, token_id, state),
            ExecuteMsg::SetWhitelist { target, state } => self.set_whitelist(
                &sender,
                target,
                state,
            ),
            ExecuteMsg::SetBaseTokenUri { uri } => self.set_base_token_uri(&sender, uri),
        }
    }
}


} // verus!
