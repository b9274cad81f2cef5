//! The wallet layer's verified pieces: transaction and output identifiers,
//! release of stale input locks, and wallet-builder configuration with its
//! completeness checks. Storage, secret management and the interactive
//! front end are external collaborators.

use vstd::prelude::*;

use crate::node_manager::NodeManagerBuilder;

verus! {

/// A transaction identifier: a 32-byte hash of the transaction bytes.
#[derive(Clone, Copy)]
pub struct TransactionId {
    pub bytes: [u8; 32],
}

impl View for TransactionId {
    type V = Seq<u8>;

    open spec fn view(&self) -> Seq<u8> {
        self.bytes@
    }
}

impl TransactionId {
    /// Wraps the raw hash bytes.
    pub fn new(bytes: [u8; 32]) -> (r: TransactionId)
        ensures
            r@ == bytes@,
    {
        TransactionId { bytes }
    }

    /// Compares two transaction identifiers by their bytes.
    pub fn same_as(&self, other: &TransactionId) -> (r: bool)
        ensures
            r == (self@ == other@),
    {
        let mut i: usize = 0;
        while i < 32
            invariant
                0 <= i <= 32,
                forall|j: int| 0 <= j < i ==> self.bytes@[j] == other.bytes@[j],
            decreases 32 - i,
        {
            if self.bytes[i] != other.bytes[i] {
                return false;
            }
            i += 1;
        }
        proof {
            assert(self@ =~= other@);
        }
        true
    }
}

/// The identifier of one transaction output: the transaction it came from
/// and its position there.
#[derive(Clone, Copy)]
pub struct OutputId {
    pub transaction_id: TransactionId,
    pub index: u16,
}

/// Mathematical value of an [`OutputId`].
#[verifier::ext_equal]
pub struct OutputIdV {
    pub transaction_id: Seq<u8>,
    pub index: u16,
}

impl View for OutputId {
    type V = OutputIdV;

    open spec fn view(&self) -> OutputIdV {
        OutputIdV { transaction_id: self.transaction_id@, index: self.index }
    }
}

impl OutputId {
    /// Compares two output identifiers by value.
    pub fn same_as(&self, other: &OutputId) -> (r: bool)
        ensures
            r == (self@ == other@),
    {
        let r = self.transaction_id.same_as(&other.transaction_id) && self.index == other.index;
        proof {
            if r {
                assert(self@ == other@);
            }
        }
        r
    }
}

/// The part of a stored transaction that input accounting reads: its
/// identifier and the outputs it consumes.
pub struct Transaction {
    pub transaction_id: TransactionId,
    pub inputs: Vec<OutputId>,
}

/// The per-account state that input accounting reads and repairs.
pub struct AccountDetails {
    /// The account's registered coin type.
    pub coin_type: u32,
    /// Identifiers of transactions still awaiting confirmation.
    pub pending_transactions: Vec<TransactionId>,
    /// The stored transactions, uniquely keyed by identifier.
    pub transactions: Vec<Transaction>,
    /// Outputs locked as inputs of in-flight transactions.
    pub locked_outputs: Vec<OutputId>,
}

/// Whether this transaction identifier is pending in the account.
pub open spec fn spec_is_pending(pending: Seq<TransactionId>, tid: Seq<u8>) -> bool {
    exists|i: int| 0 <= i < pending.len() && (#[trigger] pending[i])@ == tid
}

/// Whether some pending transaction of the account consumes this output.
pub open spec fn spec_used_input(
    pending: Seq<TransactionId>,
    transactions: Seq<Transaction>,
    o: OutputIdV,
) -> bool {
    exists|t: int, j: int|
        0 <= t < transactions.len() && spec_is_pending(
            pending,
            (#[trigger] transactions[t]).transaction_id@,
        ) && 0 <= j < transactions[t].inputs@.len() && (#[trigger] transactions[t].inputs@[j])@ == o
}

/// Whether the list holds an output with this value.
pub open spec fn spec_has_output(s: Seq<OutputId>, o: OutputIdV) -> bool {
    exists|i: int| 0 <= i < s.len() && (#[trigger] s[i])@ == o
}

/// The locked outputs that survive the repair: those consumed by some
/// pending transaction, in their original order.
pub open spec fn spec_unlocked(
    pending: Seq<TransactionId>,
    transactions: Seq<Transaction>,
    locked: Seq<OutputId>,
) -> Seq<OutputId>
    decreases locked.len(),
{
    if locked.len() == 0 {
        Seq::empty()
    } else {
        let prefix = spec_unlocked(pending, transactions, locked.drop_last());
        if spec_used_input(pending, transactions, locked.last()@) {
            prefix.push(locked.last())
        } else {
            prefix
        }
    }
}

/// One step of the lock repair.
pub proof fn lemma_unlocked_push(
    pending: Seq<TransactionId>,
    transactions: Seq<Transaction>,
    locked: Seq<OutputId>,
    x: OutputId,
)
    ensures
        spec_unlocked(pending, transactions, locked.push(x)) == (if spec_used_input(
            pending,
            transactions,
            x@,
        ) {
            spec_unlocked(pending, transactions, locked).push(x)
        } else {
            spec_unlocked(pending, transactions, locked)
        }),
{
    let t = locked.push(x);
    assert(t.drop_last() =~= locked);
    assert(t.last() == x);
}

/// Releases input locks that no pending transaction justifies: every
/// account keeps exactly those locked outputs that some pending
/// transaction consumes, in order; everything else about the accounts is
/// unchanged.
pub fn unlock_unused_inputs(accounts: &mut Vec<AccountDetails>)
    ensures
        final(accounts)@.len() == old(accounts)@.len(),
        forall|k: int|
            0 <= k < old(accounts)@.len() ==> {
                let a_old = #[trigger] old(accounts)@[k];
                let a_new = final(accounts)@[k];
                &&& a_new.coin_type == a_old.coin_type
                &&& a_new.pending_transactions == a_old.pending_transactions
                &&& a_new.transactions == a_old.transactions
                &&& a_new.locked_outputs@ == spec_unlocked(
                    a_old.pending_transactions@,
                    a_old.transactions@,
                    a_old.locked_outputs@,
                )
            },
{
    let mut k: usize = 0;
    while k < accounts.len()
        invariant
            0 <= k <= accounts@.len(),
            accounts@.len() == old(accounts)@.len(),
            forall|j: int|
                k <= j < accounts@.len() ==> #[trigger] accounts@[j] == old(accounts)@[j],
            forall|j: int|
                0 <= j < k ==> {
                    let a_old = #[trigger] old(accounts)@[j];
                    let a_new = accounts@[j];
                    &&& a_new.coin_type == a_old.coin_type
                    &&& a_new.pending_transactions == a_old.pending_transactions
                    &&& a_new.transactions == a_old.transactions
                    &&& a_new.locked_outputs@ == spec_unlocked(
                        a_old.pending_transactions@,
                        a_old.transactions@,
                        a_old.locked_outputs@,
                    )
                },
        decreases accounts@.len() - k,
    {
        let ghost snap = accounts@;
        let a = accounts.remove(k);
        let AccountDetails { coin_type, pending_transactions, transactions, locked_outputs } = a;
        let used = collect_used_inputs(&pending_transactions, &transactions);
        let new_locked = retain_used(
            locked_outputs,
            &used,
            Ghost(pending_transactions@),
            Ghost(transactions@),
        );
        let repaired = AccountDetails {
            coin_type,
            pending_transactions,
            transactions,
            locked_outputs: new_locked,
        };
        proof {
            assert(a == snap[k as int]);
        }
        accounts.insert(k, repaired);
        proof {
            assert(accounts@ =~= snap.update(k as int, repaired));
        }
        k += 1;
    }
}

/// Gathers every output consumed by a pending transaction. The result may
/// repeat an output; it is read only for membership.
fn collect_used_inputs(pending: &Vec<TransactionId>, transactions: &Vec<Transaction>) -> (r: Vec<
    OutputId,
>)
    ensures
        forall|i: int|
            0 <= i < r@.len() ==> spec_used_input(pending@, transactions@, (#[trigger] r@[i])@),
        forall|o: OutputIdV|
            spec_used_input(pending@, transactions@, o) ==> spec_has_output(r@, o),
{
    let mut r: Vec<OutputId> = Vec::new();
    let mut t: usize = 0;
    while t < transactions.len()
        invariant
            0 <= t <= transactions@.len(),
            forall|i: int|
                0 <= i < r@.len() ==> spec_used_input(
                    pending@,
                    transactions@,
                    (#[trigger] r@[i])@,
                ),
            forall|t2: int, j: int|
                0 <= t2 < t && spec_is_pending(pending@, (#[trigger] transactions@[t2]).transaction_id@)
                    && 0 <= j < transactions@[t2].inputs@.len() ==> spec_has_output(
                    r@,
                    (#[trigger] transactions@[t2].inputs@[j])@,
                ),
        decreases transactions@.len() - t,
    {
        let tx = &transactions[t];
        if is_pending(pending, &tx.transaction_id) {
            let mut j: usize = 0;
            while j < tx.inputs.len()
                invariant
                    0 <= j <= tx.inputs@.len(),
                    tx == &transactions@[t as int],
                    t < transactions@.len(),
                    spec_is_pending(pending@, transactions@[t as int].transaction_id@),
                    forall|i: int|
                        0 <= i < r@.len() ==> spec_used_input(
                            pending@,
                            transactions@,
                            (#[trigger] r@[i])@,
                        ),
                    forall|t2: int, j2: int|
                        0 <= t2 < t && spec_is_pending(
                            pending@,
                            (#[trigger] transactions@[t2]).transaction_id@,
                        ) && 0 <= j2 < transactions@[t2].inputs@.len() ==> spec_has_output(
                            r@,
                            (#[trigger] transactions@[t2].inputs@[j2])@,
                        ),
                    forall|j2: int|
                        0 <= j2 < j ==> spec_has_output(
                            r@,
                            (#[trigger] transactions@[t as int].inputs@[j2])@,
                        ),
                decreases tx.inputs@.len() - j,
            {
                let o = tx.inputs[j];
                let ghost r_old = r@;
                r.push(o);
                proof {
                    assert forall|x: OutputIdV| spec_has_output(r_old, x) implies spec_has_output(
                        r@,
                        x,
                    ) by {
                        let i = choose|i: int| 0 <= i < r_old.len() && (#[trigger] r_old[i])@ == x;
                        assert(r@[i]@ == x);
                    }
                    assert(r@[r@.len() - 1]@ == transactions@[t as int].inputs@[j as int]@);
                    assert(spec_used_input(pending@, transactions@, o@));
                }
                j += 1;
            }
        }
        t += 1;
    }
    r
}

/// Whether this identifier is among the pending ones.
fn is_pending(pending: &Vec<TransactionId>, tid: &TransactionId) -> (r: bool)
    ensures
        r == spec_is_pending(pending@, tid@),
{
    let mut i: usize = 0;
    while i < pending.len()
        invariant
            0 <= i <= pending@.len(),
            forall|j: int| 0 <= j < i ==> (#[trigger] pending@[j])@ != tid@,
        decreases pending@.len() - i,
    {
        if pending[i].same_as(tid) {
            return true;
        }
        i += 1;
    }
    false
}

/// Keeps the outputs present in `used`, in order. The ghost arguments name
/// what membership in `used` means to the caller.
fn retain_used(
    locked: Vec<OutputId>,
    used: &Vec<OutputId>,
    pending: Ghost<Seq<TransactionId>>,
    transactions: Ghost<Seq<Transaction>>,
) -> (r: Vec<OutputId>)
    requires
        forall|o: OutputIdV| spec_has_output(used@, o) == spec_used_input(
            pending@,
            transactions@,
            o,
        ),
    ensures
        r@ == spec_unlocked(pending@, transactions@, locked@),
{
    let mut r: Vec<OutputId> = Vec::new();
    let mut i: usize = 0;
    while i < locked.len()
        invariant
            0 <= i <= locked@.len(),
            forall|o: OutputIdV| spec_has_output(used@, o) == spec_used_input(
                pending@,
                transactions@,
                o,
            ),
            r@ == spec_unlocked(pending@, transactions@, locked@.take(i as int)),
        decreases locked@.len() - i,
    {
        proof {
            lemma_unlocked_push(pending@, transactions@, locked@.take(i as int), locked@[i as int]);
            assert(locked@.take(i as int).push(locked@[i as int]) =~= locked@.take(i as int + 1));
        }
        let o = locked[i];
        if contains_output(used, &o) {
            r.push(o);
        }
        i += 1;
    }
    proof {
        assert(locked@.take(locked@.len() as int) =~= locked@);
    }
    r
}

/// Whether the list holds an output with this value.
fn contains_output(v: &Vec<OutputId>, o: &OutputId) -> (r: bool)
    ensures
        r == spec_has_output(v@, o@),
{
    let mut i: usize = 0;
    while i < v.len()
        invariant
            0 <= i <= v@.len(),
            forall|j: int| 0 <= j < i ==> (#[trigger] v@[j])@ != o@,
        decreases v@.len() - i,
    {
        if v[i].same_as(o) {
            return true;
        }
        i += 1;
    }
    false
}

/// Client configuration handed to the wallet: the node manager to build.
pub struct ClientOptions {
    pub node_manager_builder: NodeManagerBuilder,
}

/// Where and how the wallet stores its data.
pub struct StorageOptions {
    pub path: String,
}

/// A construction parameter a wallet cannot be built without.
#[derive(Clone, Copy, PartialEq, Eq, Structural, Debug)]
pub enum WalletParameter {
    ClientOptions,
    CoinType,
    SecretManager,
}

/// Why a wallet could not be built from its configuration.
#[derive(Clone, Copy, PartialEq, Eq, Structural, Debug)]
pub enum WalletError {
    /// A required construction parameter is missing.
    MissingParameter(WalletParameter),
    /// The configured coin type contradicts an existing account's.
    InvalidCoinType { new_coin_type: u32, existing_coin_type: u32 },
}

/// Collects wallet configuration before the wallet is built. The secret
/// manager itself lives outside this core; only its presence is tracked.
pub struct WalletBuilder {
    pub client_options: Option<ClientOptions>,
    pub coin_type: Option<u32>,
    pub storage_options: Option<StorageOptions>,
    pub has_secret_manager: bool,
}

impl WalletBuilder {
    /// A builder with nothing configured.
    pub fn new() -> (r: WalletBuilder)
        ensures
            r.client_options is None,
            r.coin_type is None,
            r.storage_options is None,
            !r.has_secret_manager,
    {
        WalletBuilder {
            client_options: None,
            coin_type: None,
            storage_options: None,
            has_secret_manager: false,
        }
    }

    /// Sets the client options for the core nodes.
    pub fn with_client_options(self, client_options: Option<ClientOptions>) -> (r: Self)
        ensures
            r == (WalletBuilder { client_options: client_options, ..self }),
    {
        WalletBuilder { client_options, ..self }
    }

    /// Sets the coin type for the wallet.
    pub fn with_coin_type(self, coin_type: Option<u32>) -> (r: Self)
        ensures
            r == (WalletBuilder { coin_type: coin_type, ..self }),
    {
        WalletBuilder { coin_type, ..self }
    }

    /// Sets the storage options to be used.
    pub fn with_storage_options(self, storage_options: Option<StorageOptions>) -> (r: Self)
        ensures
            r == (WalletBuilder { storage_options: storage_options, ..self }),
    {
        WalletBuilder { storage_options, ..self }
    }

    /// Records whether a secret manager is configured; the manager itself
    /// is held by the surrounding program.
    pub fn with_secret_manager(self, present: bool) -> (r: Self)
        ensures
            r == (WalletBuilder { has_secret_manager: present, ..self }),
    {
        WalletBuilder { has_secret_manager: present, ..self }
    }

    /// Sets the storage path to be used.
    pub fn with_storage_path(self, path: String) -> (r: Self)
        ensures
            r.storage_options matches Some(s) && s.path@ == path@,
            r == (WalletBuilder { storage_options: r.storage_options, ..self }),
    {
        WalletBuilder { storage_options: Some(StorageOptions { path }), ..self }
    }

    /// Merges configuration read from storage: each stored field, when
    /// present, replaces the builder's own; storage options are untouched.
    pub fn merge_stored(self, stored: Option<WalletBuilder>) -> (r: Self)
        ensures
            match stored {
                None => r == self,
                Some(s) => {
                    &&& r.client_options == (if s.client_options is Some {
                        s.client_options
                    } else {
                        self.client_options
                    })
                    &&& r.coin_type == (if s.coin_type is Some {
                        s.coin_type
                    } else {
                        self.coin_type
                    })
                    &&& r.has_secret_manager == (s.has_secret_manager
                        || self.has_secret_manager)
                    &&& r.storage_options == self.storage_options
                },
            },
    {
        match stored {
            None => self,
            Some(s) => {
                let mut merged = self;
                match s.client_options {
                    Some(c) => {
                        merged.client_options = Some(c);
                    },
                    None => {},
                }
                match s.coin_type {
                    Some(c) => {
                        merged.coin_type = Some(c);
                    },
                    None => {},
                }
                if s.has_secret_manager {
                    merged.has_secret_manager = true;
                }
                merged
            },
        }
    }

    /// The completeness check run when the wallet is built. When the
    /// storage directory does not yet exist, every parameter must be
    /// present, checked in the order client options, coin type, secret
    /// manager; then the coin type must be present, must match the first
    /// existing account's if there is one, and client options and secret
    /// manager must be present. Returns the coin type on success.
    pub fn check_finish(&self, storage_dir_exists: bool, first_account_coin_type: Option<u32>)
        -> (r: Result<u32, WalletError>)
        ensures
            r == self.spec_check_finish(storage_dir_exists, first_account_coin_type),
    {
        if !storage_dir_exists {
            if self.client_options.is_none() {
                return Err(WalletError::MissingParameter(WalletParameter::ClientOptions));
            }
            if self.coin_type.is_none() {
                return Err(WalletError::MissingParameter(WalletParameter::CoinType));
            }
            if !self.has_secret_manager {
                return Err(WalletError::MissingParameter(WalletParameter::SecretManager));
            }
        }
        let coin_type = match &self.coin_type {
            Some(c) => *c,
            None => {
                return Err(WalletError::MissingParameter(WalletParameter::CoinType));
            },
        };
        match first_account_coin_type {
            Some(existing) => {
                if existing != coin_type {
                    return Err(
                        WalletError::InvalidCoinType {
                            new_coin_type: coin_type,
                            existing_coin_type: existing,
                        },
                    );
                }
            },
            None => {},
        }
        if self.client_options.is_none() {
            return Err(WalletError::MissingParameter(WalletParameter::ClientOptions));
        }
        if !self.has_secret_manager {
            return Err(WalletError::MissingParameter(WalletParameter::SecretManager));
        }
        Ok(coin_type)
    }

    /// The decision [`WalletBuilder::check_finish`] makes.
    pub open spec fn spec_check_finish(
        &self,
        storage_dir_exists: bool,
        first_account_coin_type: Option<u32>,
    ) -> Result<u32, WalletError> {
        if !storage_dir_exists && self.client_options is None {
            Err(WalletError::MissingParameter(WalletParameter::ClientOptions))
        } else if !storage_dir_exists && self.coin_type is None {
            Err(WalletError::MissingParameter(WalletParameter::CoinType))
        } else if !storage_dir_exists && !self.has_secret_manager {
            Err(WalletError::MissingParameter(WalletParameter::SecretManager))
        } else if self.coin_type is None {
            Err(WalletError::MissingParameter(WalletParameter::CoinType))
        } else if first_account_coin_type matches Some(e) && e != self.coin_type->0 {
            Err(
                WalletError::InvalidCoinType {
                    new_coin_type: self.coin_type->0,
                    existing_coin_type: first_account_coin_type->0,
                },
            )
        } else if self.client_options is None {
            Err(WalletError::MissingParameter(WalletParameter::ClientOptions))
        } else if !self.has_secret_manager {
            Err(WalletError::MissingParameter(WalletParameter::SecretManager))
        } else {
            Ok(self.coin_type->0)
        }
    }
}

impl Default for WalletBuilder {
    /// The same empty configuration as [`WalletBuilder::new`].
    fn default() -> (r: Self)
        ensures
            r.client_options is None,
            r.coin_type is None,
            r.storage_options is None,
            !r.has_secret_manager,
    {
        WalletBuilder::new()
    }
}

/// The serialized form a stored wallet configuration is read from; it
/// never carries a secret manager.
pub struct WalletBuilderDto {
    pub client_options: Option<ClientOptions>,
    pub coin_type: Option<u32>,
    pub storage_options: Option<StorageOptions>,
}

impl From<WalletBuilderDto> for WalletBuilder {
    fn from(value: WalletBuilderDto) -> (r: Self) {
        WalletBuilder {
            client_options: value.client_options,
            coin_type: value.coin_type,
            storage_options: value.storage_options,
            has_secret_manager: false,
        }
    }
}

impl vstd::std_specs::convert::FromSpecImpl<WalletBuilderDto> for WalletBuilder {
    open spec fn obeys_from_spec() -> bool {
        true
    }

    open spec fn from_spec(value: WalletBuilderDto) -> Self {
        WalletBuilder {
            client_options: value.client_options,
            coin_type: value.coin_type,
            storage_options: value.storage_options,
            has_secret_manager: false,
        }
    }
}

/// What the interactive front end should do at start-up.
#[derive(Clone, Copy, PartialEq, Eq, Structural, Debug)]
pub enum StartupAction {
    /// A command was given: run it.
    RunCommand,
    /// Database and snapshot both exist: unlock the existing wallet.
    UnlockExisting,
    /// Neither exists: offer to create a new wallet.
    OfferInit,
    /// The database exists but the snapshot is missing: report it.
    MissingSnapshot,
    /// The snapshot exists but the database is missing: report it.
    MissingDatabase,
}

/// Decides what the front end does at start-up from what is on disk.
pub fn startup_action(has_command: bool, storage_exists: bool, snapshot_exists: bool) -> (r:
    StartupAction)
    ensures
        has_command ==> r == StartupAction::RunCommand,
        !has_command && storage_exists && snapshot_exists ==> r == StartupAction::UnlockExisting,
        !has_command && !storage_exists && !snapshot_exists ==> r == StartupAction::OfferInit,
        !has_command && storage_exists && !snapshot_exists ==> r == StartupAction::MissingSnapshot,
        !has_command && !storage_exists && snapshot_exists ==> r == StartupAction::MissingDatabase,
{
    if has_command {
        StartupAction::RunCommand
    } else if storage_exists && snapshot_exists {
        StartupAction::UnlockExisting
    } else if !storage_exists && !snapshot_exists {
        StartupAction::OfferInit
    } else if storage_exists {
        StartupAction::MissingSnapshot
    } else {
        StartupAction::MissingDatabase
    }
}

} // verus!
