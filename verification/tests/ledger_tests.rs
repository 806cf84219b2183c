use educoin::AccountId;
use educoin::Amount;
use educoin::ErrorKind;
use educoin::Ledger;

fn amt(v: u64) -> Amount {
    Amount::from_u64(v)
}

#[test]
fn end_to_end_scenario() {
    let a = AccountId(1);
    let b = AccountId(2);
    let mut l = Ledger::init(a, Some(a), None, None, Some(amt(1000)));
    assert_eq!(l.balance_of(a), amt(1000));
    assert_eq!(l.total_supply(), amt(1000));

    let r = l.transfer(a, b, &amt(300));
    assert!(r.is_ok());
    assert_eq!(l.balance_of(a), amt(700));
    assert_eq!(l.balance_of(b), amt(300));

    let r = l.mint(a, b, &amt(50));
    assert!(r.is_ok());
    assert_eq!(l.balance_of(b), amt(350));
    assert_eq!(l.total_supply(), amt(1050));

    let r = l.mint(b, b, &amt(50));
    assert_eq!(r.err(), Some(ErrorKind::Unauthorized));
    assert_eq!(l.balance_of(b), amt(350));
    assert_eq!(l.total_supply(), amt(1050));

    let r = l.transfer(b, a, &amt(10000));
    assert_eq!(r.err(), Some(ErrorKind::InsufficientFunds));
    assert_eq!(l.balance_of(a), amt(700));
    assert_eq!(l.balance_of(b), amt(350));
    assert_eq!(l.total_supply(), amt(1050));
}

#[test]
fn init_defaults() {
    let a = AccountId(9);
    let l = Ledger::init(a, None, None, None, None);
    assert_eq!(l.token_name(), "EduCoin");
    assert_eq!(l.token_symbol(), "EDU");
    assert_eq!(l.total_supply(), amt(0));
    assert_eq!(l.balance_of(a), amt(0));
    assert_eq!(l.balance_of(AccountId(10)), amt(0));
}

#[test]
fn init_custom_metadata_and_supply() {
    let a = AccountId(1);
    let l = Ledger::init(
        a,
        None,
        Some("MyToken".to_string()),
        Some("MTK".to_string()),
        Some(amt(77)),
    );
    assert_eq!(l.token_name(), "MyToken");
    assert_eq!(l.token_symbol(), "MTK");
    assert_eq!(l.total_supply(), amt(77));
    assert_eq!(l.balance_of(a), amt(77));
}

#[test]
fn admin_defaults_to_invoker() {
    let a = AccountId(1);
    let b = AccountId(2);
    let mut l = Ledger::init(a, None, None, None, None);
    assert!(l.mint(a, b, &amt(10)).is_ok());
    assert_eq!(l.balance_of(b), amt(10));
    assert_eq!(l.total_supply(), amt(10));
}

#[test]
fn admin_override_wins() {
    let a = AccountId(1);
    let b = AccountId(2);
    let mut l = Ledger::init(a, Some(b), None, None, Some(amt(5)));
    // The initial supply is credited to the chosen admin, not the invoker.
    assert_eq!(l.balance_of(b), amt(5));
    assert_eq!(l.balance_of(a), amt(0));
    assert_eq!(l.mint(a, a, &amt(1)).err(), Some(ErrorKind::Unauthorized));
    assert!(l.mint(b, a, &amt(1)).is_ok());
    assert_eq!(l.balance_of(a), amt(1));
}

#[test]
fn self_transfer_is_a_no_op() {
    let a = AccountId(3);
    let mut l = Ledger::init(a, Some(a), None, None, Some(amt(500)));
    let r = l.transfer(a, a, &amt(200));
    assert!(r.is_ok());
    assert_eq!(l.balance_of(a), amt(500));
    assert_eq!(l.total_supply(), amt(500));
}

#[test]
fn failed_transfer_changes_nothing() {
    let a = AccountId(1);
    let b = AccountId(2);
    let mut l = Ledger::init(a, Some(a), None, None, Some(amt(100)));
    let r = l.transfer(a, b, &amt(101));
    assert_eq!(r.err(), Some(ErrorKind::InsufficientFunds));
    assert_eq!(l.balance_of(a), amt(100));
    assert_eq!(l.balance_of(b), amt(0));
    assert_eq!(l.total_supply(), amt(100));
}

#[test]
fn transfer_of_entire_balance_empties_the_account() {
    let a = AccountId(1);
    let b = AccountId(2);
    let mut l = Ledger::init(a, Some(a), None, None, Some(amt(40)));
    assert!(l.transfer(a, b, &amt(40)).is_ok());
    assert_eq!(l.balance_of(a), amt(0));
    assert_eq!(l.balance_of(b), amt(40));
    // The now-empty sender cannot send even a single token.
    assert_eq!(l.transfer(a, b, &amt(1)).err(), Some(ErrorKind::InsufficientFunds));
}

#[test]
fn zero_transfer_succeeds_even_from_an_empty_account() {
    let a = AccountId(1);
    let b = AccountId(2);
    let mut l = Ledger::init(a, Some(a), None, None, None);
    let r = l.transfer(b, a, &amt(0));
    assert!(r.is_ok());
    assert_eq!(l.balance_of(a), amt(0));
    assert_eq!(l.balance_of(b), amt(0));
    assert_eq!(l.total_supply(), amt(0));
}

#[test]
fn receipt_carries_amount_and_symbol() {
    let a = AccountId(1);
    let b = AccountId(2);
    let mut l = Ledger::init(a, Some(a), None, None, Some(amt(10)));
    let receipt = l.transfer(a, b, &amt(4)).ok().unwrap();
    assert_eq!(receipt.amount, amt(4));
    assert_eq!(receipt.symbol, "EDU");
    let receipt = l.mint(a, b, &amt(6)).ok().unwrap();
    assert_eq!(receipt.amount, amt(6));
    assert_eq!(receipt.symbol, "EDU");
}

#[test]
fn mint_reaches_past_64_bits() {
    let a = AccountId(1);
    let mut l1 = Ledger::init(a, Some(a), None, None, Some(amt(u64::MAX)));
    assert!(l1.mint(a, a, &amt(u64::MAX)).is_ok());

    let mut l2 = Ledger::init(a, Some(a), None, None, Some(amt(u64::MAX)));
    assert!(l2.mint(a, a, &amt(u64::MAX - 1)).is_ok());
    assert!(l2.mint(a, a, &amt(1)).is_ok());

    // Both routes reach 2 * (2^64 - 1), well past any 64-bit value.
    assert_eq!(l1.balance_of(a), l2.balance_of(a));
    assert_eq!(l1.total_supply(), l2.total_supply());
    assert_eq!(l1.balance_of(a), Amount::from_u64(u64::MAX).add(&Amount::from_u64(u64::MAX)));
}

#[test]
fn transfer_between_large_balances() {
    let a = AccountId(1);
    let b = AccountId(2);
    let two_to_64 = Amount::from_limbs(vec![0, 0, 1]);
    let mut l = Ledger::init(a, Some(a), None, None, Some(two_to_64.duplicate()));
    assert!(l.transfer(a, b, &amt(1)).is_ok());
    assert_eq!(l.balance_of(a), amt(u64::MAX));
    assert_eq!(l.balance_of(b), amt(1));
    assert_eq!(l.total_supply(), two_to_64);
}

#[test]
fn balance_reads_are_idempotent() {
    let a = AccountId(1);
    let l = Ledger::init(a, Some(a), None, None, Some(amt(123)));
    assert_eq!(l.balance_of(a), l.balance_of(a));
    assert_eq!(l.balance_of(AccountId(2)), l.balance_of(AccountId(2)));
}
