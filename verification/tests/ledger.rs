use token_sender::ledger::LedgerError;
use token_sender::ledger::TokenSender;

fn owned(s: &str) -> String {
    s.to_string()
}

fn ledger_with(owner: &str, supply: u64, recipients: &[&str]) -> TokenSender {
    TokenSender {
        owner: owned(owner),
        total_supply: supply,
        balances: Vec::new(),
        recipients: recipients.iter().map(|r| owned(r)).collect(),
    }
}

#[test]
fn unauthorized_send_leaves_state() {
    let mut l = ledger_with("owner.near", 100, &["alice.near"]);
    let r = l.send_tokens(&owned("intruder.near"), 10);
    assert_eq!(r, Err(LedgerError::Unauthorized));
    assert_eq!(l.total_supply, 100);
    assert_eq!(l.get_recipients(), vec![owned("alice.near")]);
    assert_eq!(l.balance_of(&owned("alice.near")), 0);
}

#[test]
fn unauthorized_add_leaves_state() {
    let mut l = ledger_with("owner.near", 100, &[]);
    let r = l.add_recipient(&owned("intruder.near"), owned("alice.near"));
    assert_eq!(r, Err(LedgerError::Unauthorized));
    assert!(l.get_recipients().is_empty());
}

#[test]
fn unauthorized_remove_leaves_state() {
    let mut l = ledger_with("owner.near", 100, &["alice.near"]);
    let r = l.remove_recipient(&owned("intruder.near"), &owned("alice.near"));
    assert_eq!(r, Err(LedgerError::Unauthorized));
    assert_eq!(l.get_recipients(), vec![owned("alice.near")]);
}

#[test]
fn send_debits_supply_once_and_credits_each() {
    let mut l = ledger_with("owner.near", 100, &["a", "b"]);
    let r = l.send_tokens(&owned("owner.near"), 30);
    assert!(r.is_ok());
    assert_eq!(l.total_supply, 40);
    assert_eq!(l.balance_of(&owned("a")), 30);
    assert_eq!(l.balance_of(&owned("b")), 30);
}

#[test]
fn send_beyond_supply_fails_unchanged() {
    let mut l = ledger_with("owner.near", 100, &["a", "b"]);
    assert!(l.send_tokens(&owned("owner.near"), 30).is_ok());
    assert_eq!(l.total_supply, 40);
    let r = l.send_tokens(&owned("owner.near"), 21);
    assert_eq!(r, Err(LedgerError::InsufficientSupply));
    assert_eq!(l.total_supply, 40);
    assert_eq!(l.balance_of(&owned("a")), 30);
    assert_eq!(l.balance_of(&owned("b")), 30);
}

#[test]
fn send_covering_supply_exactly_drains_it() {
    let mut l = ledger_with("owner.near", 40, &["a", "b"]);
    let r = l.send_tokens(&owned("owner.near"), 20);
    assert!(r.is_ok());
    assert_eq!(l.total_supply, 0);
    assert_eq!(l.balance_of(&owned("a")), 20);
    assert_eq!(l.balance_of(&owned("b")), 20);
}

#[test]
fn sends_accumulate_per_call_list() {
    let mut l = ledger_with("owner.near", 1000, &["a", "b"]);
    assert!(l.send_tokens(&owned("owner.near"), 30).is_ok());
    assert!(l
        .add_recipient(&owned("owner.near"), owned("c.near"))
        .is_ok());
    assert!(l.send_tokens(&owned("owner.near"), 5).is_ok());
    assert_eq!(l.balance_of(&owned("a")), 35);
    assert_eq!(l.balance_of(&owned("b")), 35);
    assert_eq!(l.balance_of(&owned("c.near")), 5);
    assert_eq!(l.total_supply, 1000 - 60 - 15);
}

#[test]
fn empty_list_send_is_a_successful_no_op() {
    let mut l = ledger_with("owner.near", 100, &[]);
    let r = l.send_tokens(&owned("owner.near"), 50);
    assert_eq!(r, Ok(Vec::new()));
    assert_eq!(l.total_supply, 100);
}

#[test]
fn send_overflowing_total_fails_unchanged() {
    let mut l = ledger_with("owner.near", 100, &["a", "b"]);
    let r = l.send_tokens(&owned("owner.near"), u64::MAX);
    assert_eq!(r, Err(LedgerError::Overflow));
    assert_eq!(l.total_supply, 100);
    assert_eq!(l.balance_of(&owned("a")), 0);
}

#[test]
fn audit_lines_name_each_credit_in_order() {
    let mut l = ledger_with("owner.near", 100, &["alice.near", "bob.near"]);
    let lines = l.send_tokens(&owned("owner.near"), 7).unwrap();
    assert_eq!(
        lines,
        vec![
            owned("Sent 7 tokens to alice.near"),
            owned("Sent 7 tokens to bob.near"),
        ]
    );
}

#[test]
fn duplicate_recipient_is_credited_per_occurrence() {
    let mut l = TokenSender::new(owned("owner.near"), 100);
    assert!(l.add_recipient(&owned("owner.near"), owned("aa")).is_ok());
    assert!(l.add_recipient(&owned("owner.near"), owned("aa")).is_ok());
    assert!(l.send_tokens(&owned("owner.near"), 5).is_ok());
    assert_eq!(l.balance_of(&owned("aa")), 10);
    assert_eq!(l.total_supply, 90);
}

#[test]
fn add_appends_at_the_end() {
    let mut l = TokenSender::new(owned("owner.near"), 100);
    assert!(l
        .add_recipient(&owned("owner.near"), owned("alice.near"))
        .is_ok());
    assert!(l
        .add_recipient(&owned("owner.near"), owned("bob.near"))
        .is_ok());
    assert_eq!(
        l.get_recipients(),
        vec![owned("alice.near"), owned("bob.near")]
    );
}

#[test]
fn invalid_identifier_is_rejected_unchanged() {
    let mut l = TokenSender::new(owned("owner.near"), 100);
    let r = l.add_recipient(&owned("owner.near"), owned("bad id"));
    assert_eq!(r, Err(LedgerError::InvalidRecipient));
    assert!(l.get_recipients().is_empty());
}

#[test]
fn validator_edge_cases() {
    let mut l = TokenSender::new(owned("owner.near"), 100);
    let owner = owned("owner.near");
    assert!(l.add_recipient(&owner, owned("aa")).is_ok());
    assert_eq!(
        l.add_recipient(&owner, owned("a")),
        Err(LedgerError::InvalidRecipient)
    );
    assert_eq!(
        l.add_recipient(&owner, owned("a--b")),
        Err(LedgerError::InvalidRecipient)
    );
    assert_eq!(
        l.add_recipient(&owner, owned("-ab")),
        Err(LedgerError::InvalidRecipient)
    );
    assert_eq!(
        l.add_recipient(&owner, owned("Alice.near")),
        Err(LedgerError::InvalidRecipient)
    );
    assert_eq!(l.get_recipients(), vec![owned("aa")]);
}

#[test]
fn remove_takes_first_occurrence_then_next() {
    let mut l = ledger_with(
        "owner.near",
        100,
        &["alice.near", "bob.near", "alice.near"],
    );
    let owner = owned("owner.near");
    assert_eq!(l.remove_recipient(&owner, &owned("alice.near")), Ok(()));
    assert_eq!(
        l.get_recipients(),
        vec![owned("bob.near"), owned("alice.near")]
    );
    assert_eq!(l.remove_recipient(&owner, &owned("alice.near")), Ok(()));
    assert_eq!(l.get_recipients(), vec![owned("bob.near")]);
    assert_eq!(l.remove_recipient(&owner, &owned("alice.near")), Ok(()));
    assert_eq!(l.get_recipients(), vec![owned("bob.near")]);
}

#[test]
fn remove_absent_is_a_no_op() {
    let mut l = ledger_with("owner.near", 100, &["alice.near"]);
    let r = l.remove_recipient(&owned("owner.near"), &owned("zed.near"));
    assert_eq!(r, Ok(()));
    assert_eq!(l.get_recipients(), vec![owned("alice.near")]);
}

#[test]
fn balance_of_absent_account_is_zero() {
    let l = TokenSender::new(owned("owner.near"), 7);
    assert_eq!(l.balance_of(&owned("nobody.near")), 0);
}

#[test]
fn new_ledger_starts_empty() {
    let l = TokenSender::new(owned("owner.near"), 42);
    assert_eq!(l.total_supply, 42);
    assert!(l.get_recipients().is_empty());
    assert!(l.balances.is_empty());
}
