use vstd::prelude::*;

use vstd::arithmetic::div_mod::{
    lemma_div_is_ordered, lemma_div_minus_one, lemma_div_plus_one, lemma_div_pos_is_pos,
};

use crate::error::ContractError;
use crate::execute::{burn_step, mint_step, min_int, sync_burns, sync_effect, sync_err, sync_mints};
use crate::state::{sum_vals, Ledger};

verus! {

/// Supply conservation: in every well-formed state the balances sum
/// exactly to the immutable total supply, so value is neither created nor
/// destroyed by any operation that preserves well-formedness.
pub proof fn lemma_supply_conservation(l: &Ledger)
    requires
        l.wf(),
    ensures
        sum_vals(l.balances.kvs()) == l.total_supply as int,
{
}

/// Ownership stays within balance: in every well-formed state no identity
/// owns more whole tokens than whole units of balance, and an exempt
/// identity owns no whole token at all. The equality form holds for
/// identities whose balance was built through the engine alone; an account
/// credited at creation starts below it.
pub proof fn lemma_owned_within_balance(l: &Ledger, a: Seq<char>)
    requires
        l.wf(),
    ensures
        l.owned_of(a).len() <= l.bal_of(a) as int / l.spec_unit(),
        l.wl_of(a) ==> l.owned_of(a).len() == 0,
{
}

/// Index integrity: in every well-formed state, every token id present in
/// any owned sequence is indexed at exactly its position, and the
/// ownership map points back at that holder.
pub proof fn lemma_index_integrity(l: &Ledger, a: Seq<char>, i: int)
    requires
        l.wf(),
        0 <= i < l.owned_of(a).len(),
    ensures
        l.owned_index@.contains_key(l.owned_of(a)[i]),
        l.owned_index@[l.owned_of(a)[i]] == i,
        l.owner_of@.contains_key(l.owned_of(a)[i]),
        l.owner_str_of(l.owned_of(a)[i]) == a,
{
    assert(l.owned_entry_ok(a, i));
}

/// Mint-burn round trip: minting a token and immediately burning it (the
/// burn always takes the newest token, which is the one just minted)
/// restores every owned sequence, every balance, the whole ownership map,
/// the reverse index and the approval table, while the minted counter has
/// advanced by one and never decreases.
pub proof fn lemma_mint_burn_roundtrip(s0: Ledger, s1: Ledger, s2: Ledger, to: Seq<char>, id: u128)
    requires
        s0.wf(),
        mint_step(s0, s1, to, id),
        burn_step(s1, s2, to, id),
    ensures
        forall|a: Seq<char>| #[trigger] s2.owned_of(a) == s0.owned_of(a),
        s2.balances == s0.balances,
        s2.owner_of@ == s0.owner_of@,
        s2.owned_index@ == s0.owned_index@,
        s2.get_approved@ == s0.get_approved@,
        s2.minted == s0.minted + 1,
        s2.minted > s0.minted,
{
    assert(s1.owned_of(to) == s0.owned_of(to).push(id));
    assert(s2.owned_of(to) =~= s0.owned_of(to));
    // The fresh id carries no stale ownership, index or approval entry.
    if s0.owner_of@.contains_key(id) {
        assert(s0.token_entry_ok(id));
    }
    assert(s2.owner_of@ =~= s0.owner_of@);
    if s0.owned_index@.contains_key(id) {
        assert(s0.idx_entry_ok(id));
        assert(s0.token_entry_ok(id));
    }
    assert(s2.owned_index@ =~= s0.owned_index@);
    if s0.get_approved@.contains_key(id) {
        assert(s0.appr_entry_ok(id));
        assert(s0.token_entry_ok(id));
    }
    assert(s2.get_approved@ =~= s0.get_approved@);
    assert forall|a: Seq<char>| #[trigger] s2.owned_of(a) == s0.owned_of(a) by {
        if a != to {
            assert(s1.owned_of(a) == s0.owned_of(a));
        }
    }
}

/// Alignment is preserved on the sender's side: when a non-exempt sender
/// enters a successful fractional transfer with its owned count exactly
/// equal to its whole-unit count, it leaves the same way — the engine
/// burns exactly the crossed boundaries.
pub proof fn lemma_sync_preserves_sender_alignment(
    pre: Ledger,
    post: Ledger,
    from: Seq<char>,
    to: Seq<char>,
    amount: u128,
)
    requires
        pre.wf(),
        sync_effect(pre, post, from, to, amount),
        !pre.wl_of(from),
        from != to,
        amount <= pre.bal_of(from),
        pre.owned_of(from).len() == pre.bal_of(from) as int / pre.spec_unit(),
    ensures
        post.owned_of(from).len() == post.bal_of(from) as int / post.spec_unit(),
{
    let u = pre.spec_unit();
    crate::state::lemma_pow10_pos(pre.decimals as nat);
    lemma_div_pos_is_pos(pre.bal_of(from) - amount, u);
    lemma_div_is_ordered(pre.bal_of(from) - amount, pre.bal_of(from) as int, u);
    let diff = pre.bal_of(from) as int / u - (pre.bal_of(from) - amount) / u;
    assert(sync_burns(&pre, from, to, amount) == min_int(
        diff,
        pre.owned_of(from).len() as int,
    ));
    assert(sync_burns(&pre, from, to, amount) == diff);
}

/// Alignment is preserved on the recipient's side: a non-exempt recipient
/// that enters aligned leaves aligned — the engine mints exactly the
/// crossed boundaries.
pub proof fn lemma_sync_preserves_recipient_alignment(
    pre: Ledger,
    post: Ledger,
    from: Seq<char>,
    to: Seq<char>,
    amount: u128,
)
    requires
        pre.wf(),
        sync_effect(pre, post, from, to, amount),
        !pre.wl_of(to),
        from != to,
        pre.owned_of(to).len() == pre.bal_of(to) as int / pre.spec_unit(),
    ensures
        post.owned_of(to).len() == post.bal_of(to) as int / post.spec_unit(),
{
    let u = pre.spec_unit();
    crate::state::lemma_pow10_pos(pre.decimals as nat);
    lemma_div_is_ordered(pre.bal_of(to) as int, pre.bal_of(to) + amount, u);
    let m = sync_mints(&pre, from, to, amount);
    assert(post.owned_of(to).len() == pre.owned_of(to).len() + m);
    assert(post.bal_of(to) as int == pre.bal_of(to) + amount);
}

/// The unit boundary: a successful transfer of exactly one unit between
/// two distinct non-exempt identities burns exactly one token from the
/// sender — the newest one, provided the sender holds any — and mints
/// exactly one fresh token for the recipient.
pub proof fn lemma_unit_boundary(
    pre: Ledger,
    post: Ledger,
    from: Seq<char>,
    to: Seq<char>,
    amount: u128,
)
    requires
        pre.wf(),
        sync_effect(pre, post, from, to, amount),
        amount as int == pre.spec_unit(),
        from != to,
        !pre.wl_of(from),
        !pre.wl_of(to),
        amount <= pre.bal_of(from),
        pre.owned_of(from).len() > 0,
    ensures
        sync_burns(&pre, from, to, amount) == 1,
        sync_mints(&pre, from, to, amount) == 1,
        post.owned_of(from).len() == pre.owned_of(from).len() - 1,
        post.owned_of(from) == pre.owned_of(from).drop_last(),
        post.owned_of(to).len() == pre.owned_of(to).len() + 1,
        post.minted == pre.minted + 1,
{
    let u = pre.spec_unit();
    crate::state::lemma_pow10_pos(pre.decimals as nat);
    lemma_div_minus_one(pre.bal_of(from) as int, u);
    assert((pre.bal_of(from) - amount) / u == pre.bal_of(from) as int / u - 1);
    lemma_div_plus_one(pre.bal_of(to) as int, u);
    assert((pre.bal_of(to) + amount) / u == pre.bal_of(to) as int / u + 1);
    let s = pre.owned_of(from);
    assert(post.owned_of(from) == s.take(s.len() - 1));
    assert(s.take(s.len() - 1) =~= s.drop_last());
    assert(post.owned_of(to).len() == pre.owned_of(to).len() + 1);
}

/// A locked newest token blocks the transfer: when a non-exempt sender
/// holds a locked token at the tail of its owned sequence and the amount
/// crosses at least one unit boundary, the synchronization engine rejects
/// the whole transfer with the lock error — and a rejected transfer leaves
/// the state unchanged, by the engine's own contract.
pub proof fn lemma_locked_token_blocks(pre: Ledger, from: Seq<char>, to: Seq<char>, amount: u128)
    requires
        pre.wf(),
        from.len() > 0,
        to.len() > 0,
        from != to,
        !pre.wl_of(from),
        pre.owned_of(from).len() > 0,
        pre.locked_of(pre.owned_of(from).last()),
        amount as int >= pre.spec_unit(),
        amount <= pre.bal_of(from),
        pre.bal_of(to) + amount <= u128::MAX,
    ensures
        sync_err(&pre, from, to, amount) == Some(ContractError::LockedToken),
{
    let u = pre.spec_unit();
    crate::state::lemma_pow10_pos(pre.decimals as nat);
    // The debit crosses at least one boundary, so at least one burn is due,
    // and the first victim is the locked tail token.
    lemma_div_minus_one(pre.bal_of(from) as int, u);
    lemma_div_is_ordered(pre.bal_of(from) - amount, pre.bal_of(from) - u, u);
    assert((pre.bal_of(from) - amount) / u <= pre.bal_of(from) as int / u - 1);
    let k = sync_burns(&pre, from, to, amount);
    assert(k >= 1);
    let s = pre.owned_of(from);
    assert(s.len() - k <= s.len() - 1 < s.len() && pre.locked_of(s[s.len() - 1]));
}

} // verus!
