use lpp::borrow::InterestRate;
use lpp::config::Config;
use lpp::deposit::Deposits;
use lpp::error::ContractError;
use lpp::finance::{Coin, Percent, Price};
use lpp::lpp::LiquidityPool;
use lpp::rewards::{query_rewards, try_claim_rewards, try_distribute_rewards};

fn identity() -> Price {
    Price::identity()
}

#[test]
fn test_claim_zero_rewards() {
    let deposit: u128 = 20_000;

    LiquidityPool::store(Config::new(
        "USDC".to_string(),
        1000,
        InterestRate::new(
            Percent::from_permille(70),
            Percent::from_permille(700),
            Percent::from_permille(20),
        )
        .expect("Couldn't construct interest rate value!"),
    ));

    let mut deposits = Deposits::new("uNLS".to_string());
    let lender = "lender".to_string();

    // no deposit
    let response = try_claim_rewards(&mut deposits, &lender, None);
    assert_eq!(response, Err(ContractError::NoDeposit));

    deposits
        .deposit(&lender, deposit, &identity())
        .expect("should deposit");

    // pending rewards == 0
    let response = try_claim_rewards(&mut deposits, &lender, None);
    assert_eq!(response, Err(ContractError::NoRewards));
}

#[test]
fn withdraw_more_than_held_fails_without_state_change() {
    let mut deposits = Deposits::new("uNLS".to_string());
    let lender = "lender".to_string();

    deposits.deposit(&lender, 1_000, &identity()).expect("should deposit");

    let result = deposits.withdraw(&lender, 2_000);
    assert_eq!(result, Err(ContractError::InsufficientBalance));

    // nothing changed
    assert_eq!(deposits.query_balance_nlpn(&lender), Some(1_000));
    assert_eq!(deposits.balance_nlpn(), 1_000);
}

#[test]
fn zero_deposit_is_rejected() {
    let mut deposits = Deposits::new("uNLS".to_string());
    let lender = "lender".to_string();

    let result = deposits.deposit(&lender, 0, &identity());
    assert_eq!(result, Err(ContractError::ZeroDepositFunds));
    assert_eq!(deposits.query_balance_nlpn(&lender), None);
}

#[test]
fn distribute_with_no_shares_is_rejected() {
    let mut deposits = Deposits::new("uNLS".to_string());
    let funds = vec![Coin::new("uNLS".to_string(), 500)];

    let result = try_distribute_rewards(&mut deposits, funds);
    assert_eq!(result, Err(ContractError::NoDeposit));
}

#[test]
fn distribute_in_wrong_currency_is_rejected() {
    let mut deposits = Deposits::new("uNLS".to_string());
    let lender = "lender".to_string();
    deposits.deposit(&lender, 100, &identity()).expect("should deposit");

    let funds = vec![Coin::new("USDC".to_string(), 500)];
    let result = try_distribute_rewards(&mut deposits, funds);
    assert_eq!(result, Err(ContractError::CurrencyMismatch));

    // two coins are no better
    let funds = vec![
        Coin::new("uNLS".to_string(), 500),
        Coin::new("uNLS".to_string(), 1),
    ];
    let result = try_distribute_rewards(&mut deposits, funds);
    assert_eq!(result, Err(ContractError::CurrencyMismatch));
}

#[test]
fn equal_stakes_take_equal_rewards() {
    let mut deposits = Deposits::new("uNLS".to_string());
    let first = "first_lender".to_string();
    let second = "second_lender".to_string();
    let late = "late_lender".to_string();

    deposits.deposit(&first, 100, &identity()).expect("should deposit");
    deposits.deposit(&second, 100, &identity()).expect("should deposit");

    let funds = vec![Coin::new("uNLS".to_string(), 30)];
    try_distribute_rewards(&mut deposits, funds).expect("should distribute");

    let first_reward = query_rewards(&deposits, &first).expect("should have rewards");
    let second_reward = query_rewards(&deposits, &second).expect("should have rewards");
    assert_eq!(first_reward.rewards.amount, 15);
    assert_eq!(second_reward.rewards.amount, 15);
    assert_eq!(first_reward.rewards.ticker, "uNLS".to_string());

    // a lender depositing after the distribution takes none of it
    deposits.deposit(&late, 100, &identity()).expect("should deposit");
    let late_reward = query_rewards(&deposits, &late).expect("should query");
    assert_eq!(late_reward.rewards.amount, 0);
}

#[test]
fn claim_pays_out_and_zeroes() {
    let mut deposits = Deposits::new("uNLS".to_string());
    let lender = "lender".to_string();
    let recipient = "treasury".to_string();

    deposits.deposit(&lender, 100, &identity()).expect("should deposit");
    let funds = vec![Coin::new("uNLS".to_string(), 50)];
    try_distribute_rewards(&mut deposits, funds).expect("should distribute");

    let msg = try_claim_rewards(&mut deposits, &lender, Some(recipient.clone()))
        .expect("should claim");
    assert_eq!(msg.to_address, recipient);
    assert_eq!(msg.amount.ticker, "uNLS".to_string());
    assert_eq!(msg.amount.amount, 50);

    // the shares stay, the reward is gone
    assert_eq!(deposits.query_balance_nlpn(&lender), Some(100));
    let response = try_claim_rewards(&mut deposits, &lender, None);
    assert_eq!(response, Err(ContractError::NoRewards));
}

#[test]
fn withdrawing_the_last_share_pays_the_reward_and_prunes() {
    let mut deposits = Deposits::new("uNLS".to_string());
    let lender = "lender".to_string();

    deposits.deposit(&lender, 100, &identity()).expect("should deposit");
    let funds = vec![Coin::new("uNLS".to_string(), 50)];
    try_distribute_rewards(&mut deposits, funds).expect("should distribute");

    let payout = deposits.withdraw(&lender, 100).expect("should withdraw");
    let msg = payout.expect("should pay the pending reward out");
    assert_eq!(msg.to_address, lender);
    assert_eq!(msg.amount.amount, 50);
    assert_eq!(deposits.query_balance_nlpn(&lender), None);
    assert_eq!(deposits.balance_nlpn(), 0);
}

#[test]
fn partial_withdraw_keeps_the_record() {
    let mut deposits = Deposits::new("uNLS".to_string());
    let lender = "lender".to_string();

    deposits.deposit(&lender, 1_000, &identity()).expect("should deposit");
    let payout = deposits.withdraw(&lender, 400).expect("should withdraw");
    assert_eq!(payout, None);
    assert_eq!(deposits.query_balance_nlpn(&lender), Some(600));
    assert_eq!(deposits.balance_nlpn(), 600);
}

#[test]
fn reward_fractions_survive_a_checkpoint() {
    // One coin spread over three shares gives each lender a third — too
    // little to pay out.  Settling a lender's checkpoint in between (here
    // by a zero withdrawal) must not lose that fraction: two thirds from
    // two distributions still add up to one whole coin.
    let mut deposits = Deposits::new("uNLS".to_string());
    let settled = "settled_lender".to_string();
    let untouched = "untouched_lender".to_string();
    let third = "third_lender".to_string();
    for name in [&settled, &untouched, &third] {
        deposits.deposit(name, 1, &identity()).expect("should deposit");
    }

    let coin = || vec![Coin::new("uNLS".to_string(), 2)];
    try_distribute_rewards(&mut deposits, coin()).expect("should distribute");
    let r = query_rewards(&deposits, &settled).expect("should query");
    assert_eq!(r.rewards.amount, 0);

    // settle one lender's record against the accumulator
    deposits.withdraw(&settled, 0).expect("should settle");

    try_distribute_rewards(&mut deposits, coin()).expect("should distribute");
    let r = query_rewards(&deposits, &settled).expect("should query");
    let u = query_rewards(&deposits, &untouched).expect("should query");
    assert_eq!(r.rewards.amount, 1);
    assert_eq!(u.rewards.amount, 1);
}

#[test]
fn deposit_too_small_to_mint_a_share_is_rejected() {
    // At a price of 11 to 10, one unit buys no whole share: the deposit
    // is refused instead of creating a zero-share record.
    let mut deposits = Deposits::new("uNLS".to_string());
    let lender = "lender".to_string();
    let price = lpp::lpp::NTokenPrice::mock(10, 11).get();

    let result = deposits.deposit(&lender, 1, &price);
    assert_eq!(result, Err(ContractError::ZeroDepositFunds));
    assert_eq!(deposits.query_balance_nlpn(&lender), None);
    assert_eq!(deposits.balance_nlpn(), 0);
}
