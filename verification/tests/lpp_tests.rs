use lpp::borrow::InterestRate;
use lpp::config::Config;
use lpp::deposit::Deposits;
use lpp::error::ContractError;
use lpp::finance::{price_total, Percent, Price, NANOS_IN_YEAR};
use lpp::lpp::LiquidityPool;

fn base_rate() -> InterestRate {
    InterestRate::new(
        Percent::from_permille(70),
        Percent::from_permille(700),
        Percent::from_permille(20),
    )
    .expect("Couldn't construct interest rate value!")
}

fn pool_with(lease_code_id: u64) -> LiquidityPool {
    LiquidityPool::store(Config::new("USDC".to_string(), lease_code_id, base_rate()))
}

#[test]
fn test_query_quote() {
    let mut pool = pool_with(123);
    let loan = "loan".to_string();
    let balance: u128 = 10_000_000;
    let now: u64 = 10;

    let result = pool
        .query_quote(balance, 7_700_000, now)
        .expect("can't query quote")
        .expect("should return some interest_rate");
    assert_eq!(result, Percent::from_permille(92));

    pool.try_open_loan(now, &loan, 7_000_000, balance)
        .expect("can't open loan");
    let balance: u128 = 3_000_000;

    // wait for a year
    let now: u64 = 10 + NANOS_IN_YEAR;

    let result = pool
        .query_quote(balance, 1_000_000, now)
        .expect("can't query quote")
        .expect("should return some interest_rate");
    assert_eq!(result, Percent::from_permille(93));
}

#[test]
fn test_open_and_repay_loan() {
    let lpp_balance: u128 = 10_000_000;
    let amount: u128 = 5_000_000;
    let annual_interest_rate =
        Percent::from_permille((20 * 1000 * (lpp_balance - amount) / lpp_balance / 700 + 70) as u32);

    let mut pool = pool_with(123);
    let lease_addr = "loan".to_string();

    // doesn't exist
    assert_eq!(pool.query_loan(&lease_addr), None);

    let now: u64 = 10;
    pool.try_open_loan(now, &lease_addr, amount, lpp_balance)
        .expect("can't open loan");

    let loan = pool.query_loan(&lease_addr).expect("should be some response");
    assert_eq!(loan.principal_due, amount);
    assert_eq!(loan.annual_interest_rate, annual_interest_rate);
    assert_eq!(loan.interest_paid, now);
    assert_eq!(loan.interest_due(now).unwrap(), 0);

    // wait for year/10
    let now: u64 = 10 + NANOS_IN_YEAR / 10;

    // pay interest for year/10
    let payment = loan.interest_due(now).unwrap();
    let repay = pool
        .try_repay_loan(now, &lease_addr, payment)
        .expect("can't repay loan");
    assert_eq!(repay, 0);

    let loan = pool.query_loan(&lease_addr).expect("should be some response");
    assert_eq!(loan.principal_due, amount);
    assert_eq!(loan.annual_interest_rate, annual_interest_rate);
    assert_eq!(loan.interest_paid, now);
    assert_eq!(loan.interest_due(now).unwrap(), 0);

    // an immediate repay after repay should pass (loan_interest_due==0 case)
    pool.try_repay_loan(now, &lease_addr, 0).expect("can't repay loan");

    // wait for another year/10
    let now: u64 = 10 + 2 * (NANOS_IN_YEAR / 10);

    // pay everything + excess
    let payment = pool
        .query_loan(&lease_addr)
        .expect("should exist")
        .interest_due(now)
        .unwrap()
        + amount
        + 100;
    let repay = pool
        .try_repay_loan(now, &lease_addr, payment)
        .expect("can't repay loan");
    assert_eq!(repay, 100);
}

#[test]
fn try_open_loan_with_no_liquidity() {
    let mut pool = pool_with(123);
    let loan = "loan".to_string();

    let result = pool.try_open_loan(0, &loan, 1_000, 0);
    assert_eq!(result, Err(ContractError::NoLiquidity));
}

#[test]
fn try_open_loan_for_zero_amount() {
    let mut pool = pool_with(123);
    let loan = "loan".to_string();

    let result = pool.try_open_loan(0, &loan, 0, 10_000_000);
    assert_eq!(result, Err(ContractError::ZeroLoanAmount));
}

#[test]
fn open_loan_repay_zero() {
    let mut pool = pool_with(123);
    let loan = "loan".to_string();

    pool.try_open_loan(0, &loan, 5_000, 10_000_000)
        .expect("can't open loan");

    let loan_before = pool.query_loan(&loan).expect("should be some response");

    // zero repay
    pool.try_repay_loan(0, &loan, 0).expect("can't repay loan");

    let loan_after = pool.query_loan(&loan).expect("should be some response");

    // should not change after zero repay
    assert_eq!(loan_before.principal_due, loan_after.principal_due);
    assert_eq!(loan_before.annual_interest_rate, loan_after.annual_interest_rate);
    assert_eq!(loan_before.interest_paid, loan_after.interest_paid);
}

#[test]
fn try_open_and_close_loan_without_paying_interest() {
    let mut pool = pool_with(123);
    let loan = "loan".to_string();

    pool.try_open_loan(0, &loan, 5_000, 10_000_000)
        .expect("can't open loan");

    let payment = pool
        .query_loan(&loan)
        .expect("should be some coins")
        .interest_due(0)
        .unwrap();
    assert_eq!(payment, 0);

    let repay = pool
        .try_repay_loan(0, &loan, 5_000)
        .expect("can't repay loan");
    assert_eq!(repay, 0);

    // Should be closed
    assert_eq!(pool.query_loan(&loan), None);
}

#[test]
fn test_tvl_and_price() {
    let mut pool = pool_with(123);
    let loan = "loan".to_string();
    let lender = "lender".to_string();

    // simplify calculation
    pool.update_borrow_rate(
        InterestRate::new(
            Percent::from_percent(18),
            Percent::from_percent(50),
            Percent::from_percent(2),
        )
        .expect("Couldn't construct interest rate value!"),
    );

    let mut deposits = Deposits::new("uNLS".to_string());
    let now: u64 = 0;

    let price = pool
        .calculate_price(0, now, deposits.balance_nlpn(), 0)
        .expect("should get price");
    assert_eq!(price.get(), Price::identity());

    let balance: u128 = 10_000_000;
    deposits
        .deposit(&lender, 10_000_000, &price.get())
        .expect("should deposit");

    let annual_interest_rate = pool
        .query_quote(balance, 5_000_000, now)
        .expect("can't query quote")
        .expect("should return some interest_rate");
    assert_eq!(annual_interest_rate, Percent::from_percent(20));

    pool.try_open_loan(now, &loan, 5_000_000, balance)
        .expect("can't open loan");
    let balance: u128 = 5_000_000;

    // wait a year
    let now: u64 = NANOS_IN_YEAR;

    let total_lpn = pool.total_lpn(balance, now).expect("should query total_lpn");
    assert_eq!(total_lpn, 11_000_000);

    let lpp_balance = pool
        .query_lpp_balance(balance, now, deposits.balance_nlpn())
        .expect("should query_lpp_balance");
    assert_eq!(lpp_balance.balance.amount, 5_000_000);
    assert_eq!(lpp_balance.total_principal_due.amount, 5_000_000);
    assert_eq!(lpp_balance.total_interest_due.amount, 1_000_000);

    let price = pool
        .calculate_price(balance, now, deposits.balance_nlpn(), 0)
        .expect("should get price");
    assert_eq!(
        price_total(1_000, &price.get()).unwrap(),
        price_total(1_000, &Price::new(10, 11)).unwrap()
    );

    // should not change tvl/price
    let excess = pool.try_repay_loan(now, &loan, 6_000_000).unwrap();
    assert_eq!(excess, 0);

    let balance: u128 = 11_000_000;
    let total_lpn = pool.total_lpn(balance, now).expect("should query total_lpn");
    assert_eq!(total_lpn, 11_000_000);

    let price = pool
        .calculate_price(balance, now, deposits.balance_nlpn(), 0)
        .expect("should get price");
    assert_eq!(
        price_total(1_000, &price.get()).unwrap(),
        price_total(1_000, &Price::new(10, 11)).unwrap()
    );

    let withdraw = pool
        .withdraw_lpn(balance, now, deposits.balance_nlpn(), 1_000)
        .expect("should withdraw");
    assert_eq!(withdraw, 1_100);
}
