use iota_sdk::node_manager::NodeManagerBuilder;
use iota_sdk::wallet::{
    startup_action, unlock_unused_inputs, AccountDetails, ClientOptions, OutputId, StartupAction,
    StorageOptions, Transaction, TransactionId, WalletBuilder, WalletBuilderDto, WalletError,
    WalletParameter,
};

fn tid(tag: u8) -> TransactionId {
    TransactionId::new([tag; 32])
}

fn oid(tag: u8, index: u16) -> OutputId {
    OutputId { transaction_id: tid(tag), index }
}

fn client_options() -> ClientOptions {
    ClientOptions { node_manager_builder: NodeManagerBuilder::new() }
}

#[test]
fn unlock_keeps_only_inputs_of_pending_transactions() {
    let mut accounts = vec![AccountDetails {
        coin_type: 4218,
        pending_transactions: vec![tid(1)],
        transactions: vec![
            Transaction { transaction_id: tid(1), inputs: vec![oid(9, 0)] },
            Transaction { transaction_id: tid(2), inputs: vec![oid(8, 0)] },
        ],
        locked_outputs: vec![oid(9, 0), oid(8, 0), oid(7, 3)],
    }];

    unlock_unused_inputs(&mut accounts);

    // Only the input of the pending transaction stays locked: the input of
    // the settled transaction and the orphaned lock are released.
    assert_eq!(accounts[0].locked_outputs.len(), 1);
    assert!(accounts[0].locked_outputs[0].same_as(&oid(9, 0)));
    assert_eq!(accounts[0].coin_type, 4218);
    assert_eq!(accounts[0].pending_transactions.len(), 1);
    assert_eq!(accounts[0].transactions.len(), 2);
}

#[test]
fn unlock_distinguishes_output_index() {
    let mut accounts = vec![AccountDetails {
        coin_type: 1,
        pending_transactions: vec![tid(1)],
        transactions: vec![Transaction { transaction_id: tid(1), inputs: vec![oid(9, 1)] }],
        locked_outputs: vec![oid(9, 0), oid(9, 1)],
    }];
    unlock_unused_inputs(&mut accounts);
    assert_eq!(accounts[0].locked_outputs.len(), 1);
    assert_eq!(accounts[0].locked_outputs[0].index, 1);
}

#[test]
fn unlock_handles_several_accounts() {
    let used = AccountDetails {
        coin_type: 1,
        pending_transactions: vec![tid(1)],
        transactions: vec![Transaction { transaction_id: tid(1), inputs: vec![oid(5, 0)] }],
        locked_outputs: vec![oid(5, 0)],
    };
    let stale = AccountDetails {
        coin_type: 2,
        pending_transactions: vec![],
        transactions: vec![Transaction { transaction_id: tid(3), inputs: vec![oid(6, 0)] }],
        locked_outputs: vec![oid(6, 0)],
    };
    let mut accounts = vec![used, stale];
    unlock_unused_inputs(&mut accounts);
    assert_eq!(accounts[0].locked_outputs.len(), 1);
    assert_eq!(accounts[1].locked_outputs.len(), 0);
}

#[test]
fn check_finish_demands_parameters_for_fresh_storage() {
    let b = WalletBuilder::new();
    assert!(matches!(
        b.check_finish(false, None),
        Err(WalletError::MissingParameter(WalletParameter::ClientOptions))
    ));

    let b = WalletBuilder::new().with_client_options(Some(client_options()));
    assert!(matches!(
        b.check_finish(false, None),
        Err(WalletError::MissingParameter(WalletParameter::CoinType))
    ));

    let b = WalletBuilder::new()
        .with_client_options(Some(client_options()))
        .with_coin_type(Some(4218));
    assert!(matches!(
        b.check_finish(false, None),
        Err(WalletError::MissingParameter(WalletParameter::SecretManager))
    ));

    let b = b.with_secret_manager(true);
    assert_eq!(b.check_finish(false, None), Ok(4218));
}

#[test]
fn check_finish_with_existing_storage_still_needs_coin_type() {
    let b = WalletBuilder::new()
        .with_client_options(Some(client_options()))
        .with_secret_manager(true);
    assert!(matches!(
        b.check_finish(true, None),
        Err(WalletError::MissingParameter(WalletParameter::CoinType))
    ));
}

#[test]
fn check_finish_rejects_conflicting_coin_type() {
    let b = WalletBuilder::new()
        .with_client_options(Some(client_options()))
        .with_coin_type(Some(4218))
        .with_secret_manager(true);
    assert!(matches!(
        b.check_finish(true, Some(4219)),
        Err(WalletError::InvalidCoinType { new_coin_type: 4218, existing_coin_type: 4219 })
    ));
    assert_eq!(b.check_finish(true, Some(4218)), Ok(4218));
}

#[test]
fn storage_path_sets_storage_options() {
    let b = WalletBuilder::new().with_storage_path("walletdb".to_string());
    assert_eq!(b.storage_options.as_ref().unwrap().path.as_str(), "walletdb");
    let b = b.with_storage_options(Some(StorageOptions { path: "other".to_string() }));
    assert_eq!(b.storage_options.as_ref().unwrap().path.as_str(), "other");
}

#[test]
fn merge_stored_prefers_stored_configuration() {
    let own = WalletBuilder::new()
        .with_coin_type(Some(1))
        .with_storage_path("db".to_string())
        .with_secret_manager(true);

    // Nothing stored: unchanged.
    let unchanged = WalletBuilder::new().with_coin_type(Some(1)).merge_stored(None);
    assert_eq!(unchanged.coin_type, Some(1));

    // Stored fields, where present, win; storage options are untouched.
    let stored = WalletBuilder::new()
        .with_client_options(Some(client_options()))
        .with_coin_type(Some(2));
    let merged = own.merge_stored(Some(stored));
    assert_eq!(merged.coin_type, Some(2));
    assert!(merged.client_options.is_some());
    assert!(merged.has_secret_manager);
    assert_eq!(merged.storage_options.as_ref().unwrap().path.as_str(), "db");
}

#[test]
fn default_builder_is_empty() {
    let b = WalletBuilder::default();
    assert!(b.client_options.is_none());
    assert!(b.coin_type.is_none());
    assert!(b.storage_options.is_none());
    assert!(!b.has_secret_manager);
}

#[test]
fn dto_never_carries_a_secret_manager() {
    let dto = WalletBuilderDto {
        client_options: Some(client_options()),
        coin_type: Some(4219),
        storage_options: None,
    };
    let b = WalletBuilder::from(dto);
    assert_eq!(b.coin_type, Some(4219));
    assert!(b.client_options.is_some());
    assert!(!b.has_secret_manager);
}

#[test]
fn startup_actions_cover_disk_states() {
    assert_eq!(startup_action(true, false, false), StartupAction::RunCommand);
    assert_eq!(startup_action(false, true, true), StartupAction::UnlockExisting);
    assert_eq!(startup_action(false, false, false), StartupAction::OfferInit);
    assert_eq!(startup_action(false, true, false), StartupAction::MissingSnapshot);
    assert_eq!(startup_action(false, false, true), StartupAction::MissingDatabase);
}
