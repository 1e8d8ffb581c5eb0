use cw404::{Action, ContractError, ExecuteMsg, InstantiateMsg, Ledger, NftEvent, Response};

fn s(x: &str) -> String {
    x.to_string()
}

fn inst(name: &str, symbol: &str, decimals: u8, native: u128, creator: &str) -> Ledger {
    let msg = InstantiateMsg {
        name: s(name),
        symbol: s(symbol),
        decimals,
        total_native_supply: native,
        minter: None,
    };
    let (ledger, resp) = Ledger::instantiate(msg, s(creator)).expect("instantiate");
    match resp {
        Response::Instantiated { to, amount } => {
            assert_eq!(to, s(creator));
            assert_eq!(amount, ledger.total_supply);
        }
        _ => panic!("wrong response"),
    }
    ledger
}

fn owned_ids(l: &Ledger, who: &str) -> Vec<u128> {
    l.user_info(&s(who)).owned
}

#[test]
fn instantiate_credits_creator() {
    // Scenario: supply 1000, decimals 0, creator C.
    let l = inst("Token", "TOK", 0, 1000, "c");
    assert_eq!(l.total_supply, 1000);
    assert_eq!(l.balance_of(&s("c")), 1000);
    assert_eq!(l.balance_of(&s("d")), 0);
    assert_eq!(l.num_tokens().count, 0);
}

#[test]
fn instantiate_scales_by_decimals() {
    let l = inst("Token", "TOK", 3, 7, "c");
    assert_eq!(l.total_supply, 7000);
    assert_eq!(l.get_unit(), 1000);
}

#[test]
fn instantiate_overflow_rejected() {
    let msg = InstantiateMsg {
        name: s("Token"),
        symbol: s("TOK"),
        decimals: 60,
        total_native_supply: 1,
        minter: None,
    };
    assert_eq!(
        Ledger::instantiate(msg, s("c")).unwrap_err(),
        ContractError::ArithmeticOverflow
    );
    let msg2 = InstantiateMsg {
        name: s("Token"),
        symbol: s("TOK"),
        decimals: 30,
        total_native_supply: u128::MAX / 2,
        minter: None,
    };
    assert_eq!(
        Ledger::instantiate(msg2, s("c")).unwrap_err(),
        ContractError::ArithmeticOverflow
    );
}

#[test]
fn transfer_one_unit_mints_for_recipient() {
    // Scenario: transfer 1 unit from C to D, both non-exempt.
    let mut l = inst("Token", "TOK", 0, 1000, "c");
    let resp = l.transfer(s("c"), s("d"), 1).expect("transfer");
    assert_eq!(l.balance_of(&s("c")), 999);
    assert_eq!(l.balance_of(&s("d")), 1);
    assert_eq!(l.num_tokens().count, 1);
    assert_eq!(owned_ids(&l, "d"), vec![1]);
    // The creator held no whole tokens, so nothing is burned.
    assert_eq!(owned_ids(&l, "c"), Vec::<u128>::new());
    match resp {
        Response::Transferred {
            label,
            from,
            to,
            amount,
            spender,
            events,
        } => {
            assert_eq!(label, Action::Transfer);
            assert_eq!(from, s("c"));
            assert_eq!(to, s("d"));
            assert_eq!(amount, 1);
            assert!(spender.is_none());
            assert_eq!(events.len(), 1);
            match &events[0] {
                NftEvent::Mint { to, token_id } => {
                    assert_eq!(to, &s("d"));
                    assert_eq!(*token_id, 1);
                }
                _ => panic!("expected a mint event"),
            }
        }
        _ => panic!("wrong response"),
    }
}

#[test]
fn unit_boundary_burns_and_mints_exactly_one() {
    // With unit 10: D holds two whole tokens, sends exactly one unit to E.
    let mut l = inst("Token", "TOK", 1, 100, "c");
    assert_eq!(l.get_unit(), 10);
    l.transfer(s("c"), s("d"), 25).expect("fund d");
    assert_eq!(owned_ids(&l, "d"), vec![1, 2]);
    let resp = l.transfer(s("d"), s("e"), 10).expect("boundary transfer");
    assert_eq!(l.balance_of(&s("d")), 15);
    assert_eq!(l.balance_of(&s("e")), 10);
    // Exactly one burn (the newest token, id 2) and one mint (id 3).
    assert_eq!(owned_ids(&l, "d"), vec![1]);
    assert_eq!(owned_ids(&l, "e"), vec![3]);
    assert_eq!(l.num_tokens().count, 3);
    match resp {
        Response::Transferred { events, .. } => {
            assert_eq!(events.len(), 2);
            assert!(matches!(
                &events[0],
                NftEvent::Burn { from, token_id } if from == &s("d") && *token_id == 2
            ));
            assert!(matches!(
                &events[1],
                NftEvent::Mint { to, token_id } if to == &s("e") && *token_id == 3
            ));
        }
        _ => panic!("wrong response"),
    }
}

#[test]
fn sub_unit_transfer_mints_nothing() {
    let mut l = inst("Token", "TOK", 1, 100, "c");
    l.transfer(s("c"), s("d"), 9).expect("transfer");
    assert_eq!(l.balance_of(&s("d")), 9);
    assert_eq!(owned_ids(&l, "d"), Vec::<u128>::new());
    assert_eq!(l.num_tokens().count, 0);
}

#[test]
fn insufficient_balance_rejected_unchanged() {
    let mut l = inst("Token", "TOK", 0, 100, "c");
    assert_eq!(
        l.transfer(s("d"), s("e"), 1).unwrap_err(),
        ContractError::InsufficientBalance
    );
    assert_eq!(l.balance_of(&s("d")), 0);
    assert_eq!(l.balance_of(&s("e")), 0);
    assert_eq!(l.balance_of(&s("c")), 100);
}

#[test]
fn empty_parties_rejected() {
    let mut l = inst("Token", "TOK", 0, 100, "c");
    assert_eq!(
        l.transfer(s(""), s("d"), 1).unwrap_err(),
        ContractError::InvalidSender
    );
    assert_eq!(
        l.transfer(s("c"), s(""), 1).unwrap_err(),
        ContractError::InvalidRecipient
    );
}

#[test]
fn locked_token_blocks_burn() {
    // Scenario: D owns token 1 and locks it; a transfer that would burn it
    // fails and leaves D untouched.
    let mut l = inst("Token", "TOK", 0, 1000, "c");
    l.transfer(s("c"), s("d"), 1).expect("fund d");
    assert_eq!(owned_ids(&l, "d"), vec![1]);
    l.execute(
        s("d"),
        ExecuteMsg::SetLock {
            token_id: 1,
            state: true,
        },
    )
    .expect("lock");
    assert!(l.is_locked(1));
    let err = l.transfer(s("d"), s("e"), 1).unwrap_err();
    assert_eq!(err, ContractError::LockedToken);
    assert_eq!(l.balance_of(&s("d")), 1);
    assert_eq!(owned_ids(&l, "d"), vec![1]);
    assert_eq!(l.balance_of(&s("e")), 0);
    // Unlocking lets the transfer through.
    l.execute(
        s("d"),
        ExecuteMsg::SetLock {
            token_id: 1,
            state: false,
        },
    )
    .expect("unlock");
    l.transfer(s("d"), s("e"), 1).expect("now fine");
    assert_eq!(owned_ids(&l, "d"), Vec::<u128>::new());
}

#[test]
fn set_lock_requires_owner() {
    let mut l = inst("Token", "TOK", 0, 1000, "c");
    l.transfer(s("c"), s("d"), 1).expect("fund d");
    assert_eq!(
        l.set_lock(&s("e"), 1, true).unwrap_err(),
        ContractError::Unauthorized
    );
}

#[test]
fn whitelist_enable_force_burns() {
    // Scenario: E owns 3 tokens; enabling its exemption burns all three,
    // leaves the balance alone and empties the owned set.
    let mut l = inst("Token", "TOK", 0, 1000, "c");
    l.transfer(s("c"), s("e"), 3).expect("fund e");
    assert_eq!(owned_ids(&l, "e"), vec![1, 2, 3]);
    let resp = l
        .set_whitelist(&s("c"), s("e"), true)
        .expect("set whitelist");
    assert_eq!(l.balance_of(&s("e")), 3);
    assert_eq!(owned_ids(&l, "e"), Vec::<u128>::new());
    assert_eq!(l.num_tokens().count, 3);
    match resp {
        Response::WhitelistUpdated {
            target,
            state,
            events,
        } => {
            assert_eq!(target, s("e"));
            assert!(state);
            // Burns run newest first.
            assert_eq!(events.len(), 3);
            assert!(matches!(&events[0], NftEvent::Burn { token_id: 3, .. }));
            assert!(matches!(&events[1], NftEvent::Burn { token_id: 2, .. }));
            assert!(matches!(&events[2], NftEvent::Burn { token_id: 1, .. }));
        }
        _ => panic!("wrong response"),
    }
    // While exempt, credits mint nothing.
    l.transfer(s("c"), s("e"), 5).expect("credit exempt");
    assert_eq!(l.balance_of(&s("e")), 8);
    assert_eq!(owned_ids(&l, "e"), Vec::<u128>::new());
}

#[test]
fn whitelist_requires_contract_owner() {
    let mut l = inst("Token", "TOK", 0, 1000, "c");
    assert_eq!(
        l.set_whitelist(&s("d"), s("e"), true).unwrap_err(),
        ContractError::Unauthorized
    );
}

#[test]
fn whitelist_blocked_by_locked_token() {
    let mut l = inst("Token", "TOK", 0, 1000, "c");
    l.transfer(s("c"), s("e"), 2).expect("fund e");
    l.set_lock(&s("e"), 1, true).expect("lock");
    assert_eq!(
        l.set_whitelist(&s("c"), s("e"), true).unwrap_err(),
        ContractError::LockedToken
    );
    // Nothing burned.
    assert_eq!(owned_ids(&l, "e"), vec![1, 2]);
}

#[test]
fn approve_dispatches_on_minted_counter() {
    // Scenario: minted is 5; the argument 3 is a token id, the argument
    // 1000000 is a fractional allowance.
    let mut l = inst("Token", "TOK", 0, 1000, "c");
    l.transfer(s("c"), s("d"), 5).expect("fund d");
    assert_eq!(l.num_tokens().count, 5);
    // Token path: owner approves a spender for token 3.
    l.approve(&s("d"), s("spender"), 3).expect("token approve");
    let info = l.all_nft_info(3);
    assert_eq!(info.access.approvals, vec![s("spender")]);
    assert_eq!(l.allowance_query(&s("d"), &s("spender")).allowance, 0);
    // Fractional path: 1000000 exceeds the minted counter.
    l.approve(&s("d"), s("spender"), 1_000_000)
        .expect("fractional approve");
    assert_eq!(
        l.allowance_query(&s("d"), &s("spender")).allowance,
        1_000_000
    );
    // Token 3's approval is untouched by the fractional path.
    assert_eq!(l.all_nft_info(3).access.approvals, vec![s("spender")]);
}

#[test]
fn approve_token_requires_owner_or_operator() {
    let mut l = inst("Token", "TOK", 0, 1000, "c");
    l.transfer(s("c"), s("d"), 1).expect("fund d");
    assert_eq!(
        l.approve(&s("x"), s("spender"), 1).unwrap_err(),
        ContractError::Unauthorized
    );
    // An operator may approve on the owner's behalf.
    l.approve_all(&s("d"), s("op")).expect("approve all");
    l.approve(&s("op"), s("spender"), 1).expect("via operator");
    assert_eq!(l.all_nft_info(1).access.approvals, vec![s("spender")]);
}

#[test]
fn token_transfer_via_id_moves_one_unit() {
    let mut l = inst("Token", "TOK", 0, 1000, "c");
    l.transfer(s("c"), s("d"), 3).expect("fund d");
    assert_eq!(owned_ids(&l, "d"), vec![1, 2, 3]);
    // The argument 2 does not exceed minted (3), so it names token 2.
    let resp = l
        .transfer_from(&s("d"), s("d"), s("e"), 2, None)
        .expect("token transfer");
    assert_eq!(l.balance_of(&s("d")), 2);
    assert_eq!(l.balance_of(&s("e")), 1);
    // Swap-with-last: token 3 fills the vacated middle slot.
    assert_eq!(owned_ids(&l, "d"), vec![1, 3]);
    assert_eq!(owned_ids(&l, "e"), vec![2]);
    assert_eq!(l.owner_of_query(2).owner, s("e"));
    // No mint or burn happened.
    assert_eq!(l.num_tokens().count, 3);
    match resp {
        Response::TokenTransferred {
            label,
            token_id,
            amount,
            events,
            ..
        } => {
            assert_eq!(label, Action::Transfer);
            assert_eq!(token_id, 2);
            assert_eq!(amount, 1);
            assert_eq!(events.len(), 1);
            assert!(matches!(
                &events[0],
                NftEvent::Transfer { from, to, token_id }
                    if from == &s("d") && to == &s("e") && *token_id == 2
            ));
        }
        _ => panic!("wrong response"),
    }
}

#[test]
fn index_integrity_after_swap_remove() {
    let mut l = inst("Token", "TOK", 0, 1000, "c");
    l.transfer(s("c"), s("d"), 3).expect("fund d");
    l.transfer_from(&s("d"), s("d"), s("e"), 2, None)
        .expect("move token 2");
    // d's sequence is [1, 3]: each id is indexed at its true position.
    assert_eq!(l.extended_info(1).owned_index, 0);
    assert_eq!(l.extended_info(1).owner_of, s("d"));
    assert_eq!(l.extended_info(3).owned_index, 1);
    assert_eq!(l.extended_info(3).owner_of, s("d"));
    assert_eq!(l.extended_info(2).owned_index, 0);
    assert_eq!(l.extended_info(2).owner_of, s("e"));
}

#[test]
fn token_transfer_clears_approval() {
    let mut l = inst("Token", "TOK", 0, 1000, "c");
    l.transfer(s("c"), s("d"), 1).expect("fund d");
    l.approve(&s("d"), s("spender"), 1).expect("approve");
    // The approved spender moves the token; the approval is then gone.
    l.transfer_from(&s("spender"), s("d"), s("e"), 1, None)
        .expect("spender moves token");
    assert_eq!(l.owner_of_query(1).owner, s("e"));
    assert!(l.all_nft_info(1).access.approvals.is_empty());
    // The old approval conveys nothing any more.
    assert_eq!(
        l.transfer_from(&s("spender"), s("e"), s("d"), 1, None)
            .unwrap_err(),
        ContractError::Unauthorized
    );
}

#[test]
fn token_transfer_to_exempt_recipient_rejected() {
    let mut l = inst("Token", "TOK", 0, 1000, "c");
    l.transfer(s("c"), s("d"), 1).expect("fund d");
    l.set_whitelist(&s("c"), s("w"), true).expect("exempt w");
    assert_eq!(
        l.transfer_from(&s("d"), s("d"), s("w"), 1, None).unwrap_err(),
        ContractError::InvalidRecipient
    );
    // The fractional path to an exempt recipient stays open.
    l.transfer_from(&s("d"), s("d"), s("w"), 999_999_999, None)
        .map(|_| ())
        .unwrap_err();
}

#[test]
fn token_transfer_wrong_owner_rejected() {
    let mut l = inst("Token", "TOK", 0, 1000, "c");
    l.transfer(s("c"), s("d"), 1).expect("fund d");
    assert_eq!(
        l.transfer_from(&s("e"), s("e"), s("f"), 1, None).unwrap_err(),
        ContractError::InvalidSender
    );
}

#[test]
fn fractional_transfer_from_spends_allowance() {
    let mut l = inst("Token", "TOK", 0, 1000, "c");
    // No allowance yet: the fractional interpretation fails.
    assert_eq!(
        l.transfer_from(&s("spender"), s("c"), s("d"), 10, None)
            .unwrap_err(),
        ContractError::InsufficientAllowance
    );
    l.approve(&s("c"), s("spender"), 25).expect("allowance");
    l.transfer_from(&s("spender"), s("c"), s("d"), 10, None)
        .expect("spend");
    assert_eq!(l.allowance_query(&s("c"), &s("spender")).allowance, 15);
    assert_eq!(l.balance_of(&s("d")), 10);
    assert_eq!(
        l.transfer_from(&s("spender"), s("c"), s("d"), 16, None)
            .unwrap_err(),
        ContractError::InsufficientAllowance
    );
}

#[test]
fn unlimited_allowance_not_decremented() {
    let mut l = inst("Token", "TOK", 0, 1000, "c");
    l.approve(&s("c"), s("spender"), u128::MAX).expect("unlimited");
    l.transfer_from(&s("spender"), s("c"), s("d"), 10, None)
        .expect("spend");
    assert_eq!(
        l.allowance_query(&s("c"), &s("spender")).allowance,
        u128::MAX
    );
}

#[test]
fn revoke_all_withdraws_operator() {
    let mut l = inst("Token", "TOK", 0, 1000, "c");
    l.transfer(s("c"), s("d"), 1).expect("fund d");
    l.approve_all(&s("d"), s("op")).expect("grant");
    l.transfer_from(&s("op"), s("d"), s("e"), 1, None)
        .expect("operator moves token");
    l.transfer_from(&s("e"), s("e"), s("d"), 1, None)
        .expect("give it back");
    l.revoke_all(&s("d"), s("op")).expect("revoke");
    assert_eq!(
        l.transfer_from(&s("op"), s("d"), s("e"), 1, None).unwrap_err(),
        ContractError::Unauthorized
    );
}

#[test]
fn mint_then_burn_restores_owned_and_balances() {
    // Round trip: a credit that mints, then a debit that burns the same
    // (newest) token, leaves owned sets and the ownership map as before,
    // while the minted counter only grows.
    let mut l = inst("Token", "TOK", 0, 1000, "c");
    // Exempt the creator so only d's side mints and burns.
    l.set_whitelist(&s("c"), s("c"), true).expect("exempt creator");
    l.transfer(s("c"), s("d"), 5).expect("fund d");
    let owned_before = owned_ids(&l, "d");
    let bal_before = l.balance_of(&s("d"));
    let minted_before = l.num_tokens().count;
    l.transfer(s("c"), s("d"), 1).expect("mint one");
    l.transfer(s("d"), s("c"), 1).expect("burn it back");
    assert_eq!(owned_ids(&l, "d"), owned_before);
    assert_eq!(l.balance_of(&s("d")), bal_before);
    assert!(l.num_tokens().count > minted_before);
    assert_eq!(l.num_tokens().count, minted_before + 1);
}

#[test]
fn balance_sum_stays_total_supply() {
    let mut l = inst("Token", "TOK", 1, 100, "c");
    l.transfer(s("c"), s("d"), 123).expect("t1");
    l.transfer(s("d"), s("e"), 45).expect("t2");
    l.set_whitelist(&s("c"), s("e"), true).expect("exempt");
    l.transfer(s("c"), s("e"), 67).expect("t3");
    let sum = l.balance_of(&s("c")) + l.balance_of(&s("d")) + l.balance_of(&s("e"));
    assert_eq!(sum, l.total_supply);
    assert_eq!(l.total_supply, 1000);
}

#[test]
fn owned_count_matches_whole_units() {
    let mut l = inst("Token", "TOK", 1, 100, "c");
    l.transfer(s("c"), s("d"), 123).expect("t1");
    l.transfer(s("d"), s("e"), 45).expect("t2");
    for who in ["d", "e"] {
        let info = l.user_info(&s(who));
        assert_eq!(info.owned.len() as u128, info.balances / l.get_unit());
    }
}

#[test]
fn execute_dispatches_all_messages() {
    let mut l = inst("Token", "TOK", 0, 1000, "c");
    l.execute(
        s("c"),
        ExecuteMsg::Transfer {
            recipient: s("d"),
            amount: 2,
        },
    )
    .expect("transfer");
    l.execute(
        s("d"),
        ExecuteMsg::TransferNft {
            recipient: s("e"),
            token_id: 1,
        },
    )
    .expect("transfer nft");
    assert_eq!(l.owner_of_query(1).owner, s("e"));
    l.execute(
        s("d"),
        ExecuteMsg::IncreaseAllowance {
            spender: s("x"),
            amount: 500,
        },
    )
    .expect("increase allowance");
    assert_eq!(l.allowance_query(&s("d"), &s("x")).allowance, 500);
    l.execute(
        s("c"),
        ExecuteMsg::Send {
            contract: s("pool"),
            amount: 3,
        },
    )
    .expect("send");
    assert_eq!(l.balance_of(&s("pool")), 3);
    l.execute(
        s("e"),
        ExecuteMsg::SendNft {
            contract: s("pool2"),
            token_id: 1,
        },
    )
    .expect("send nft");
    assert_eq!(l.owner_of_query(1).owner, s("pool2"));
    l.execute(s("c"), ExecuteMsg::SetBaseTokenUri { uri: s("ipfs://x/") })
        .expect("set uri");
    assert_eq!(l.nft_info(1).base_uri, s("ipfs://x/"));
}

#[test]
fn dual_dispatch_hazard_small_amount_is_token_id() {
    // A caller meaning to move 2 fractional units will move token 2 once
    // two tokens exist: the argument is compared against the counter.
    let mut l = inst("Token", "TOK", 0, 1000, "c");
    l.transfer(s("c"), s("d"), 2).expect("fund d");
    assert_eq!(l.num_tokens().count, 2);
    let resp = l
        .transfer_from(&s("d"), s("d"), s("e"), 2, None)
        .expect("token path");
    assert!(matches!(resp, Response::TokenTransferred { .. }));
    assert_eq!(l.balance_of(&s("e")), 1);
}

#[test]
fn tokens_pagination_sorted_after_cursor() {
    let mut l = inst("Token", "TOK", 0, 1000, "c");
    l.transfer(s("c"), s("d"), 5).expect("fund d");
    // Shuffle d's sequence a little: move token 2 away and back.
    l.transfer_from(&s("d"), s("d"), s("e"), 2, None).expect("away");
    l.transfer_from(&s("e"), s("e"), s("d"), 2, None).expect("back");
    assert_eq!(owned_ids(&l, "d"), vec![1, 5, 3, 4, 2]);
    let page = l.tokens(&s("d"), None, Some(3)).tokens;
    assert_eq!(page, vec![1, 2, 3]);
    let page2 = l.tokens(&s("d"), Some(3), Some(3)).tokens;
    assert_eq!(page2, vec![4, 5]);
    let all = l.tokens(&s("d"), None, None).tokens;
    assert_eq!(all, vec![1, 2, 3, 4, 5]);
}

#[test]
fn all_tokens_lists_id_range() {
    let mut l = inst("Token", "TOK", 0, 1000, "c");
    l.transfer(s("c"), s("d"), 4).expect("fund d");
    let all = l.all_tokens(None, Some(10)).tokens;
    assert_eq!(all, vec![1, 2, 3, 4]);
    let page = l.all_tokens(Some(2), Some(10)).tokens;
    assert_eq!(page, vec![3, 4]);
    let capped = l.all_tokens(None, Some(2)).tokens;
    assert_eq!(capped, vec![1, 2]);
}

#[test]
fn queries_report_configuration() {
    let l = inst("MyToken", "MTK", 2, 50, "c");
    let ci = l.contract_info();
    assert_eq!(ci.name, s("MyToken"));
    assert_eq!(ci.symbol, s("MTK"));
    let ti = l.token_info();
    assert_eq!(ti.decimals, 2);
    assert_eq!(ti.total_supply, 5000);
    assert!(l.minter().minter.is_none());
}

#[test]
fn self_transfer_changes_nothing() {
    let mut l = inst("Token", "TOK", 0, 1000, "c");
    // Exempt the creator so only d's side mints and burns.
    l.set_whitelist(&s("c"), s("c"), true).expect("exempt creator");
    l.transfer(s("c"), s("d"), 5).expect("fund d");
    let owned_before = owned_ids(&l, "d");
    l.transfer(s("d"), s("d"), 3).expect("self transfer");
    assert_eq!(l.balance_of(&s("d")), 5);
    assert_eq!(owned_ids(&l, "d"), owned_before);
    assert_eq!(l.num_tokens().count, 5);
}

#[test]
fn zero_amount_is_token_id_zero() {
    // The dual dispatch reads 0 as a token id (0 <= minted always); token
    // zero never exists, so its owner is the empty identity and the
    // sender never matches it.
    let mut l = inst("Token", "TOK", 0, 1000, "c");
    assert_eq!(
        l.transfer_from(&s("c"), s("c"), s("d"), 0, None).unwrap_err(),
        ContractError::InvalidSender
    );
}

#[test]
fn approve_zero_sets_zero_allowance() {
    // Zero is never a live token id, so the zero argument always takes the
    // fractional branch.
    let mut l = inst("Token", "TOK", 0, 1000, "c");
    l.transfer(s("c"), s("d"), 1).expect("mint one");
    l.approve(&s("c"), s("spender"), 100).expect("allowance 100");
    l.approve(&s("c"), s("spender"), 0).expect("allowance 0");
    assert_eq!(l.allowance_query(&s("c"), &s("spender")).allowance, 0);
}

#[test]
fn approve_all_rejects_empty_operator() {
    let mut l = inst("Token", "TOK", 0, 1000, "c");
    assert_eq!(
        l.approve_all(&s("c"), s("")).unwrap_err(),
        ContractError::InvalidRecipient
    );
    assert_eq!(
        l.revoke_all(&s("c"), s("")).unwrap_err(),
        ContractError::InvalidRecipient
    );
}

#[test]
fn send_uses_send_label() {
    let mut l = inst("Token", "TOK", 0, 1000, "c");
    let resp = l.send(s("c"), s("pool"), 2).expect("send");
    match resp {
        Response::Transferred { label, .. } => assert_eq!(label, Action::Send),
        _ => panic!("wrong response"),
    }
    assert_eq!(l.balance_of(&s("pool")), 2);
}

#[test]
fn set_base_token_uri_requires_owner() {
    let mut l = inst("Token", "TOK", 0, 1000, "c");
    assert_eq!(
        l.set_base_token_uri(&s("d"), s("ipfs://x/")).unwrap_err(),
        ContractError::Unauthorized
    );
    l.set_base_token_uri(&s("c"), s("ipfs://x/")).expect("owner may");
    assert_eq!(l.nft_info(7).base_uri, s("ipfs://x/"));
    assert_eq!(l.nft_info(7).token_id, 7);
}

#[test]
fn transfer_from_by_owner_still_needs_allowance() {
    // The fractional interpretation always charges the caller's allowance
    // over the owner, even when the caller is the owner; only the plain
    // transfer skips allowances.
    let mut l = inst("Token", "TOK", 0, 1000, "c");
    assert_eq!(
        l.transfer_from(&s("c"), s("c"), s("d"), 10, None).unwrap_err(),
        ContractError::InsufficientAllowance
    );
    l.transfer(s("c"), s("d"), 10).expect("plain transfer works");
    assert_eq!(l.balance_of(&s("d")), 10);
}

#[test]
fn exempt_transfer_moves_only_balances() {
    // A fractional transfer between two exempt identities mints nothing,
    // burns nothing, and leaves ownership, indices, approvals and locks
    // exactly as they were.
    let mut l = inst("Token", "TOK", 0, 1000, "c");
    l.transfer(s("c"), s("d"), 2).expect("fund d");
    l.approve(&s("d"), s("spender"), 1).expect("approve token 1");
    l.set_lock(&s("d"), 2, true).expect("lock token 2");
    l.set_whitelist(&s("c"), s("w1"), true).expect("exempt w1");
    l.set_whitelist(&s("c"), s("w2"), true).expect("exempt w2");
    l.transfer(s("c"), s("w1"), 50).expect("fund w1");
    let minted_before = l.num_tokens().count;
    l.transfer(s("w1"), s("w2"), 30).expect("exempt to exempt");
    assert_eq!(l.balance_of(&s("w1")), 20);
    assert_eq!(l.balance_of(&s("w2")), 30);
    assert_eq!(l.num_tokens().count, minted_before);
    assert_eq!(owned_ids(&l, "w1"), Vec::<u128>::new());
    assert_eq!(owned_ids(&l, "w2"), Vec::<u128>::new());
    // d's tokens, the approval and the lock are untouched.
    assert_eq!(owned_ids(&l, "d"), vec![1, 2]);
    assert_eq!(l.owner_of_query(1).owner, s("d"));
    assert_eq!(l.all_nft_info(1).access.approvals, vec![s("spender")]);
    assert!(l.is_locked(2));
}
