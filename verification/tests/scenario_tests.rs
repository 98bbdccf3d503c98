use lpp::borrow::InterestRate;
use lpp::config::Config;
use lpp::loan::{repay, LoanData};
use lpp::deposit::Deposits;
use lpp::error::ContractError;
use lpp::finance::{to_seconds, Percent, Price, NANOS_IN_YEAR};
use lpp::lpp::{LiquidityPool, NTokenPrice};

fn default_pool() -> LiquidityPool {
    LiquidityPool::store(Config::new(
        "USDC".to_string(),
        123,
        InterestRate::new(
            Percent::from_permille(70),
            Percent::from_permille(700),
            Percent::from_permille(20),
        )
        .expect("Couldn't construct interest rate value!"),
    ))
}

#[test]
fn interest_only_repayment_keeps_principal() {
    // Pool balance 10,000,000; open a loan of 5,000,000 at the computed
    // rate; after one tenth of a year repay exactly the interest due: the
    // principal must stay at 5,000,000 and the watermark must equal the
    // repay time.
    let mut pool = default_pool();
    let borrower = "borrower".to_string();

    let rate = pool
        .try_open_loan(0, &borrower, 5_000_000, 10_000_000)
        .expect("can't open loan");
    assert_eq!(rate, Percent::from_permille(84));

    let now: u64 = NANOS_IN_YEAR / 10;
    let loan = pool.query_loan(&borrower).expect("should exist");
    let interest = loan.interest_due(now).unwrap();
    assert_eq!(interest, 42_000);

    let excess = pool
        .try_repay_loan(now, &borrower, interest)
        .expect("can't repay loan");
    assert_eq!(excess, 0);

    let loan = pool.query_loan(&borrower).expect("should exist");
    assert_eq!(loan.principal_due, 5_000_000);
    assert_eq!(loan.interest_paid, now);
    assert_eq!(loan.interest_due(now).unwrap(), 0);
}

#[test]
fn repay_unknown_borrower_fails() {
    let mut pool = default_pool();
    let result = pool.try_repay_loan(0, &"nobody".to_string(), 1_000);
    assert_eq!(result, Err(ContractError::NoLoan));
}

#[test]
fn open_twice_fails_and_keeps_the_first_loan() {
    let mut pool = default_pool();
    let borrower = "borrower".to_string();

    pool.try_open_loan(0, &borrower, 1_000, 10_000_000)
        .expect("can't open loan");
    let result = pool.try_open_loan(0, &borrower, 2_000, 10_000_000);
    assert_eq!(result, Err(ContractError::LoanExists));

    let loan = pool.query_loan(&borrower).expect("should exist");
    assert_eq!(loan.principal_due, 1_000);
}

#[test]
fn oversized_quote_overflows_loudly() {
    let mut pool = default_pool();
    let result = pool.try_open_loan(0, &"big".to_string(), u128::MAX - 1, u128::MAX);
    assert_eq!(result, Err(ContractError::Overflow));
}

#[test]
fn lease_code_validation() {
    let pool = default_pool();
    assert_eq!(pool.validate_lease_addr(123), Ok(()));
    assert_eq!(
        pool.validate_lease_addr(124),
        Err(ContractError::InvalidLeaseCode)
    );
}

#[test]
fn updating_the_lease_code_changes_validation() {
    let mut pool = default_pool();
    pool.update_lease_code(777);
    assert_eq!(pool.validate_lease_addr(777), Ok(()));
    assert_eq!(pool.config().lease_code_id(), 777);
}

#[test]
fn deposit_withdraw_roundtrip_loses_at_most_rounding() {
    // At a price of 11 to 10, a deposit of 1,000 mints 909 shares; burning
    // them right away returns 999 — never more than went in, and short
    // only by rounding.
    let mut pool = default_pool();
    let lender = "lender".to_string();
    let borrower = "borrower".to_string();
    let mut deposits = Deposits::new("uNLS".to_string());

    // build a pool whose share price is 11/10: deposit 10,000,000 at
    // identity, lend 5,000,000 for a year at 20 percent, repay in full
    let price = pool.calculate_price(0, 0, deposits.balance_nlpn(), 0).unwrap();
    deposits.deposit(&lender, 10_000_000, &price.get()).unwrap();
    pool.update_borrow_rate(
        InterestRate::new(
            Percent::from_percent(18),
            Percent::from_percent(50),
            Percent::from_percent(2),
        )
        .unwrap(),
    );
    pool.try_open_loan(0, &borrower, 5_000_000, 10_000_000).unwrap();
    let now: u64 = NANOS_IN_YEAR;
    pool.try_repay_loan(now, &borrower, 6_000_000).unwrap();
    let balance: u128 = 11_000_000;

    let price = pool
        .calculate_price(balance, now, deposits.balance_nlpn(), 0)
        .unwrap();
    assert_eq!(price.get(), Price::new(10_000_000, 11_000_000));

    // the deposit of x = 1,000 arrives: the bank balance already holds it
    let deposit_amount: u128 = 1_000;
    let balance: u128 = balance + deposit_amount;
    let price_before = pool
        .calculate_price(balance, now, deposits.balance_nlpn(), deposit_amount)
        .unwrap();
    deposits
        .deposit(&lender, deposit_amount, &price_before.get())
        .unwrap();
    let minted = deposits.query_balance_nlpn(&lender).unwrap() - 10_000_000;
    assert_eq!(minted, 909);

    let withdrawn = pool
        .withdraw_lpn(balance, now, deposits.balance_nlpn(), minted)
        .expect("should size the withdrawal");
    assert_eq!(withdrawn, 999);
    assert!(withdrawn <= deposit_amount);
}

#[test]
fn mock_price_converts_exactly() {
    let price = NTokenPrice::mock(10, 11);
    assert_eq!(
        lpp::finance::price_total(1_000, &price.get()).unwrap(),
        1_100
    );
}

#[test]
fn quote_response_shapes() {
    let some = lpp::msg::QueryQuoteResponse::QuoteInterestRate(Percent::from_percent(9));
    let none = lpp::msg::QueryQuoteResponse::NoLiquidity;
    assert_ne!(some, none);
    assert_eq!(
        some,
        lpp::msg::QueryQuoteResponse::QuoteInterestRate(Percent::from_permille(90))
    );
}

#[test]
fn cadence_hours_to_seconds() {
    assert_eq!(to_seconds(1), 3_600);
    assert_eq!(to_seconds(24), 86_400);
    assert_eq!(to_seconds(0), 0);
}

#[test]
fn percent_arithmetic() {
    assert_eq!(Percent::from_percent(18).units(), 180);
    assert_eq!(Percent::from_permille(92).of(10_000_000).unwrap(), 920_000);
    assert_eq!(
        Percent::from_ratio(7_700_000, 10_000_000).unwrap(),
        Percent::from_permille(770)
    );
    assert_eq!(
        Percent::from_permille(70)
            .checked_add(&Percent::from_permille(22))
            .unwrap(),
        Percent::from_permille(92)
    );
}

#[test]
fn price_response_from_ntoken_price() {
    let price = NTokenPrice::mock(10, 11);
    let response: lpp::msg::PriceResponse = price.into();
    assert_eq!(response.0, Price::new(10, 11));
}

#[test]
fn partial_interest_payment_advances_the_watermark_exactly() {
    // Half the accrued interest pays for exactly half the elapsed span:
    // the other half stays due, the principal is untouched, and nothing
    // is forgiven or charged twice.
    let mut pool = default_pool();
    let borrower = "borrower".to_string();

    pool.try_open_loan(0, &borrower, 5_000_000, 10_000_000)
        .expect("can't open loan");

    let now: u64 = NANOS_IN_YEAR / 10;
    let loan = pool.query_loan(&borrower).expect("should exist");
    assert_eq!(loan.interest_due(now).unwrap(), 42_000);

    let excess = pool
        .try_repay_loan(now, &borrower, 21_000)
        .expect("can't repay loan");
    assert_eq!(excess, 0);

    let loan = pool.query_loan(&borrower).expect("should exist");
    assert_eq!(loan.principal_due, 5_000_000);
    assert_eq!(loan.interest_paid, NANOS_IN_YEAR / 20);
    assert_eq!(loan.interest_due(now).unwrap(), 21_000);
}

#[test]
fn withdrawal_beyond_the_bank_fails_with_no_liquidity() {
    // 100 shares over a bank of 100: redeeming 200 shares would be worth
    // 200, which the bank cannot cover.
    let pool = default_pool();
    let result = pool.withdraw_lpn(100, 0, 100, 200);
    assert_eq!(result, Err(ContractError::NoLiquidity));
}

#[test]
fn payment_below_one_interest_unit_is_retained() {
    // A loan of 7 at one permille owes 2 after the chosen span; paying 1
    // keeps the whole unit in the pool — no excess — and leaves exactly
    // the other unit due.
    let two_units_span: u64 = (2 * (NANOS_IN_YEAR as u128) * 1000 / 7 + 1) as u64;
    let loan = LoanData {
        principal_due: 7,
        annual_interest_rate: Percent::from_permille(1),
        interest_paid: 0,
    };
    assert_eq!(loan.interest_due(two_units_span).unwrap(), 2);

    let (after, shares) = repay(&loan, two_units_span, 1).expect("can't repay");
    assert_eq!(shares.interest, 1);
    assert_eq!(shares.principal, 0);
    assert_eq!(shares.excess, 0);

    let after = after.expect("loan stays open");
    assert_eq!(after.principal_due, 7);
    assert_eq!(after.interest_due(two_units_span).unwrap(), 1);
}
