use secure_vault::session::menu_choice;
use secure_vault::session::session_expired;
use secure_vault::session::MenuChoice;
use secure_vault::session::AUTO_LOCK_SECS;
use secure_vault::vault::Secret;
use secure_vault::vault::Vault;

fn three() -> Vault {
    let mut vault = Vault::new();
    vault.add("one".to_string(), Secret::new("1".to_string()));
    vault.add("two".to_string(), Secret::new("2".to_string()));
    vault.add("three".to_string(), Secret::new("3".to_string()));
    vault
}

fn accounts(vault: &Vault) -> Vec<String> {
    let mut names = Vec::new();
    for e in &vault.entries {
        names.push(e.account.clone());
    }
    names
}

#[test]
fn a_new_vault_is_empty() {
    let vault = Vault::new();
    assert_eq!(vault.len(), 0);
    assert!(vault.entries.is_empty());
}

#[test]
fn add_puts_the_entry_last() {
    let vault = three();
    assert_eq!(vault.len(), 3);
    assert_eq!(accounts(&vault), vec!["one", "two", "three"]);
    assert_eq!(vault.entries[2].password.as_str(), "3");
}

#[test]
fn remove_counts_from_one() {
    let mut vault = three();
    let removed = vault.remove(1).expect("in range");
    assert_eq!(removed.account, "one");
    assert_eq!(removed.password.as_str(), "1");
    assert_eq!(accounts(&vault), vec!["two", "three"]);
    let last = vault.remove(2).expect("in range");
    assert_eq!(last.account, "three");
    assert_eq!(accounts(&vault), vec!["two"]);
}

#[test]
fn remove_keeps_the_order_of_the_rest() {
    let mut vault = three();
    let removed = vault.remove(2).expect("in range");
    assert_eq!(removed.account, "two");
    assert_eq!(accounts(&vault), vec!["one", "three"]);
}

#[test]
fn remove_leaves_the_vault_alone_on_a_number_out_of_range() {
    let mut vault = three();
    assert!(vault.remove(0).is_none());
    assert!(vault.remove(4).is_none());
    assert!(vault.remove(usize::MAX).is_none());
    assert_eq!(accounts(&vault), vec!["one", "two", "three"]);
    let mut empty = Vault::new();
    assert!(empty.remove(1).is_none());
    assert_eq!(empty.len(), 0);
}

#[test]
fn menu_choice_reads_the_four_digits() {
    assert_eq!(menu_choice("1"), MenuChoice::Add);
    assert_eq!(menu_choice("2"), MenuChoice::Show);
    assert_eq!(menu_choice("3"), MenuChoice::Delete);
    assert_eq!(menu_choice("4"), MenuChoice::Lock);
}

#[test]
fn menu_choice_refuses_everything_else() {
    for text in ["", "0", "5", "11", " 1", "1 ", "one", "١", "1\n"] {
        assert_eq!(menu_choice(text), MenuChoice::Invalid);
    }
}

#[test]
fn a_session_expires_after_its_seconds_and_not_at_them() {
    assert_eq!(AUTO_LOCK_SECS, 120);
    assert!(!session_expired(0, 0));
    assert!(!session_expired(119, 999_999_999));
    assert!(!session_expired(120, 0));
    assert!(session_expired(120, 1));
    assert!(session_expired(121, 0));
    assert!(session_expired(u64::MAX, 0));
}
