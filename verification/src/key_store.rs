//! The key store: one wrapped data key for each master key, each under a
//! reference id of its own.
//!
//! [`KeyStore`] keeps the rows in memory.  A store that lives elsewhere
//! follows the same rule through [`plan_store`]: look the master key up,
//! and insert only where nothing was found.

use vstd::prelude::*;
use vstd::slice::slice_to_vec;

use crate::cipher::{fernet_key_accepted, KEY_TEXT_LEN};
use crate::error::EnvelopeError;
use crate::issuer::IssuedKey;

verus! {

/// One row of the key store.
#[derive(Clone, Debug)]
pub struct KeyRow {
    /// The reference id by which data records point at this row.
    pub id: i64,
    /// The master key under which the data key was wrapped.
    pub master_key_ref: String,
    /// The wrapped data key.
    pub wrapped_key: Vec<u8>,
}

/// A row as plain values.
pub struct KeyEntry {
    /// The reference id of the row.
    pub id: i64,
    /// The master key of the row.
    pub master_key_ref: Seq<char>,
    /// The wrapped data key of the row.
    pub wrapped_key: Seq<u8>,
}

impl View for KeyRow {
    type V = KeyEntry;

    open spec fn view(&self) -> KeyEntry {
        KeyEntry {
            id: self.id,
            master_key_ref: self.master_key_ref@,
            wrapped_key: self.wrapped_key@,
        }
    }
}

/// The first entry for a master key among those from position `from` on.
pub open spec fn first_match(entries: Seq<KeyEntry>, master_key_ref: Seq<char>, from: int) -> Option<
    KeyEntry,
>
    decreases entries.len() - from,
{
    if from < 0 || from >= entries.len() {
        None
    } else if entries[from].master_key_ref == master_key_ref {
        Some(entries[from])
    } else {
        first_match(entries, master_key_ref, from + 1)
    }
}

/// The entry stored for a master key, if there is one.
pub open spec fn entry_for(entries: Seq<KeyEntry>, master_key_ref: Seq<char>) -> Option<KeyEntry> {
    first_match(entries, master_key_ref, 0)
}

/// The reference id that the next new row gets: ids count up from 1.
pub open spec fn next_id(entries: Seq<KeyEntry>) -> int {
    entries.len() as int + 1
}

/// Whether the rows are those of a key store: the ids count up from 1,
/// and no master key has two rows.
pub open spec fn well_formed(entries: Seq<KeyEntry>) -> bool {
    &&& forall|i: int| 0 <= i < entries.len() ==> (#[trigger] entries[i]).id == i + 1
    &&& forall|i: int, j: int|
        0 <= i < j < entries.len() ==> (#[trigger] entries[i]).master_key_ref != (
        #[trigger] entries[j]).master_key_ref
}

/// The rows after a wrapped key was stored for a master key.
pub open spec fn with_entry(
    entries: Seq<KeyEntry>,
    master_key_ref: Seq<char>,
    wrapped_key: Seq<u8>,
) -> Seq<KeyEntry> {
    entries.push(KeyEntry { id: next_id(entries) as i64, master_key_ref, wrapped_key })
}

/// The rows after `get_or_create`: as before where the master key has a
/// row, else with a new row for the wrapped key.
pub open spec fn after_get_or_create(
    entries: Seq<KeyEntry>,
    master_key_ref: Seq<char>,
    wrapped_key: Seq<u8>,
) -> Seq<KeyEntry> {
    if entry_for(entries, master_key_ref) is Some {
        entries
    } else {
        with_entry(entries, master_key_ref, wrapped_key)
    }
}

/// The reference id that `get_or_create` gives: that of the row of the
/// master key, or the one that a new row gets.
pub open spec fn id_of_get_or_create(entries: Seq<KeyEntry>, master_key_ref: Seq<char>) -> int {
    match entry_for(entries, master_key_ref) {
        Some(entry) => entry.id as int,
        None => next_id(entries),
    }
}

/// What to do for a master key once the store was asked for it.
#[derive(Clone, Debug, PartialEq, Eq)]
pub enum StoreAction {
    /// A row is there: use its reference id and its wrapped key, store
    /// nothing.  The key to seal with is the one that the key service
    /// unwraps from `wrapped_key`.
    UseExisting { id: i64, wrapped_key: Vec<u8> },
    /// No row is there: have a key issued, store its wrapped form and use
    /// the id of the new row.
    Insert,
}

/// Check, then insert: the decision between the lookup and the insert.
/// `found` is the reference id and the wrapped key that the lookup gave,
/// if it gave a row.
pub fn plan_store(found: Option<(i64, Vec<u8>)>) -> (action: StoreAction)
    ensures
        match found {
            Some((id, wrapped_key)) => action matches StoreAction::UseExisting {
                id: used,
                wrapped_key: kept,
            } && used == id && kept@ == wrapped_key@,
            None => action is Insert,
        },
{
    match found {
        Some((id, wrapped_key)) => StoreAction::UseExisting { id, wrapped_key },
        None => StoreAction::Insert,
    }
}

/// What `get_or_create` hands out for a master key.
pub enum KeyGrant {
    /// The master key had a row: its reference id and its wrapped key.
    /// The key to seal with is the one that the key service unwraps from
    /// `wrapped_key`.
    Existing { id: i64, wrapped_key: Vec<u8> },
    /// The master key had no row: the reference id of the new row, which
    /// holds the wrapped form of the issued key, and the key text of that
    /// key.
    Created { id: i64, key_text: String },
}

impl KeyGrant {
    /// The reference id of the grant.
    pub open spec fn spec_id(self) -> i64 {
        match self {
            KeyGrant::Existing { id, .. } => id,
            KeyGrant::Created { id, .. } => id,
        }
    }

    /// The reference id under which records sealed with the granted key
    /// are stored.
    pub fn id(&self) -> (id: i64)
        ensures
            id == self.spec_id(),
    {
        match self {
            KeyGrant::Existing { id, .. } => *id,
            KeyGrant::Created { id, .. } => *id,
        }
    }
}

/// A key store in memory.
pub struct KeyStore {
    rows: Vec<KeyRow>,
}

impl View for KeyStore {
    type V = Seq<KeyEntry>;

    closed spec fn view(&self) -> Seq<KeyEntry> {
        Seq::new(self.rows@.len(), |i: int| self.rows@[i]@)
    }
}

impl KeyStore {
    /// Whether the store is in order: see [`well_formed`].  `new` makes
    /// such a store and every method keeps it one.
    pub open spec fn wf(&self) -> bool {
        well_formed(self@)
    }

    /// An empty store.
    pub fn new() -> (store: KeyStore)
        ensures
            store@ == Seq::<KeyEntry>::empty(),
            store.wf(),
    {
        KeyStore { rows: Vec::new() }
    }

    /// The number of rows.
    pub fn len(&self) -> (n: usize)
        ensures
            n == self@.len(),
    {
        self.rows.len()
    }

    /// Looks a master key up by exact match.
    pub fn find_wrapped_key(&self, master_key_ref: &str) -> (r: Option<&KeyRow>)
        ensures
            match r {
                Some(row) => entry_for(self@, master_key_ref@) == Some(row@)
                    && row.master_key_ref@ == master_key_ref@,
                None => entry_for(self@, master_key_ref@) is None,
            },
    {
        let wanted: String = master_key_ref.to_owned();
        let mut i: usize = 0;
        while i < self.rows.len()
            invariant
                i <= self.rows.len(),
                wanted@ == master_key_ref@,
                entry_for(self@, master_key_ref@) == first_match(self@, master_key_ref@, i as int),
            decreases self.rows.len() - i,
        {
            if self.rows[i].master_key_ref == wanted {
                return Some(&self.rows[i]);
            }
            i += 1;
        }
        None
    }

    /// Stores a wrapped key for a master key that has none yet, and gives
    /// the reference id of the new row.  A master key that has a row keeps
    /// it: the store is left as it was.
    pub fn insert_wrapped_key(&mut self, master_key_ref: &str, wrapped_key: Vec<u8>) -> (r: Result<
        i64,
        EnvelopeError,
    >)
        requires
            old(self).wf(),
        ensures
            final(self).wf(),
            match r {
                Ok(id) => {
                    &&& entry_for(old(self)@, master_key_ref@) is None
                    &&& id == next_id(old(self)@)
                    &&& final(self)@ == with_entry(old(self)@, master_key_ref@, wrapped_key@)
                },
                Err(e) => {
                    &&& final(self)@ == old(self)@
                    &&& e == (if entry_for(old(self)@, master_key_ref@) is Some {
                        EnvelopeError::DuplicateMasterKey
                    } else {
                        EnvelopeError::StoreFull
                    })
                },
            },
            r is Ok <==> entry_for(old(self)@, master_key_ref@) is None && next_id(old(self)@)
                <= i64::MAX,
    {
        if self.find_wrapped_key(master_key_ref).is_some() {
            return Err(EnvelopeError::DuplicateMasterKey);
        }
        if self.rows.len() as u64 >= i64::MAX as u64 {
            return Err(EnvelopeError::StoreFull);
        }
        let id: i64 = self.rows.len() as i64 + 1;
        let ghost before = self@;
        let row = KeyRow { id, master_key_ref: master_key_ref.to_owned(), wrapped_key };
        proof {
            lemma_absent_everywhere(before, master_key_ref@, 0);
        }
        self.rows.push(row);
        assert(self@ =~= with_entry(before, master_key_ref@, wrapped_key@));
        Ok(id)
    }

    /// Gives the data key of a master key: the one that is stored where
    /// the master key has a row, else the issued one, which is then stored
    /// under a new reference id.  Where a row is there, nothing is stored
    /// and the issued key goes unused: what comes back is the id of the row
    /// and the wrapped key in that row.  Either way the row of the returned
    /// id holds the wrapped form of the key that is handed out.
    pub fn get_or_create(&mut self, master_key_ref: &str, issued: IssuedKey) -> (r: Result<
        KeyGrant,
        EnvelopeError,
    >)
        requires
            old(self).wf(),
        ensures
            final(self).wf(),
            match r {
                Ok(KeyGrant::Existing { id, wrapped_key }) => {
                    &&& entry_for(old(self)@, master_key_ref@) == Some(
                        KeyEntry {
                            id,
                            master_key_ref: master_key_ref@,
                            wrapped_key: wrapped_key@,
                        },
                    )
                    &&& final(self)@ == old(self)@
                },
                Ok(KeyGrant::Created { id, key_text }) => {
                    &&& entry_for(old(self)@, master_key_ref@) is None
                    &&& id == next_id(old(self)@)
                    &&& final(self)@ == with_entry(
                        old(self)@,
                        master_key_ref@,
                        issued@.wrapped_key,
                    )
                    &&& key_text@ == issued@.key_text
                    &&& key_text@.len() == KEY_TEXT_LEN
                    &&& fernet_key_accepted(key_text@)
                },
                Err(e) => e == EnvelopeError::StoreFull && final(self)@ == old(self)@,
            },
            r matches Ok(grant) ==> {
                &&& grant.spec_id() == id_of_get_or_create(old(self)@, master_key_ref@)
                &&& final(self)@ == after_get_or_create(
                    old(self)@,
                    master_key_ref@,
                    issued@.wrapped_key,
                )
                &&& entry_for(final(self)@, master_key_ref@) matches Some(entry)
                &&& entry.id == grant.spec_id()
                &&& entry.wrapped_key == match grant {
                    KeyGrant::Existing { wrapped_key, .. } => wrapped_key@,
                    KeyGrant::Created { .. } => issued@.wrapped_key,
                }
            },
            r is Err <==> entry_for(old(self)@, master_key_ref@) is None && next_id(old(self)@)
                > i64::MAX,
    {
        let found: Option<(i64, Vec<u8>)> = match self.find_wrapped_key(master_key_ref) {
            Some(row) => Some((row.id, slice_to_vec(row.wrapped_key.as_slice()))),
            None => None,
        };
        match plan_store(found) {
            StoreAction::UseExisting { id, wrapped_key } => Ok(
                KeyGrant::Existing { id, wrapped_key },
            ),
            StoreAction::Insert => {
                let ghost before = self@;
                let (wrapped_key, key_text) = issued.into_parts();
                proof {
                    lemma_first_match_push(
                        before,
                        master_key_ref@,
                        KeyEntry {
                            id: next_id(before) as i64,
                            master_key_ref: master_key_ref@,
                            wrapped_key: wrapped_key@,
                        },
                        0,
                    );
                }
                match self.insert_wrapped_key(master_key_ref, wrapped_key) {
                    Ok(id) => Ok(KeyGrant::Created { id, key_text }),
                    Err(e) => Err(e),
                }
            },
        }
    }
}

/// A master key without an entry from `from` on stands in no row from
/// there on.
pub proof fn lemma_absent_everywhere(entries: Seq<KeyEntry>, master_key_ref: Seq<char>, from: int)
    requires
        0 <= from,
        first_match(entries, master_key_ref, from) is None,
    ensures
        forall|i: int|
            from <= i < entries.len() ==> (#[trigger] entries[i]).master_key_ref != master_key_ref,
    decreases entries.len() - from,
{
    if from < entries.len() {
        lemma_absent_everywhere(entries, master_key_ref, from + 1);
    }
}

/// A new row at the end changes no lookup that found a row before it, and
/// is what a lookup finds for its own master key where none was found.
pub proof fn lemma_first_match_push(
    entries: Seq<KeyEntry>,
    master_key_ref: Seq<char>,
    entry: KeyEntry,
    from: int,
)
    requires
        0 <= from <= entries.len(),
    ensures
        first_match(entries.push(entry), master_key_ref, from) == match first_match(
            entries,
            master_key_ref,
            from,
        ) {
            Some(found) => Some(found),
            None => if entry.master_key_ref == master_key_ref {
                Some(entry)
            } else {
                None
            },
        },
    decreases entries.len() - from,
{
    let longer = entries.push(entry);
    if from < entries.len() {
        lemma_first_match_push(entries, master_key_ref, entry, from + 1);
    } else {
        assert(first_match(longer, master_key_ref, from + 1) is None);
    }
}

/// The store stays a store: `get_or_create` keeps the ids counting up
/// from 1 and every master key at one row at most.
pub proof fn lemma_get_or_create_keeps_one_row_per_key(
    entries: Seq<KeyEntry>,
    master_key_ref: Seq<char>,
    wrapped_key: Seq<u8>,
)
    requires
        well_formed(entries),
        next_id(entries) <= i64::MAX,
    ensures
        well_formed(after_get_or_create(entries, master_key_ref, wrapped_key)),
{
    if entry_for(entries, master_key_ref) is None {
        lemma_absent_everywhere(entries, master_key_ref, 0);
    }
}

/// Issuing twice for one master key: the second `get_or_create` gives
/// the reference id that the first gave and leaves the store as the first
/// left it, whatever keys were issued.
pub proof fn lemma_get_or_create_twice(
    entries: Seq<KeyEntry>,
    master_key_ref: Seq<char>,
    first_wrapped: Seq<u8>,
    second_wrapped: Seq<u8>,
)
    requires
        next_id(entries) <= i64::MAX,
    ensures
        ({
            let once = after_get_or_create(entries, master_key_ref, first_wrapped);
            &&& id_of_get_or_create(once, master_key_ref) == id_of_get_or_create(
                entries,
                master_key_ref,
            )
            &&& after_get_or_create(once, master_key_ref, second_wrapped) == once
            &&& once.len() <= entries.len() + 1
        }),
{
    if entry_for(entries, master_key_ref) is None {
        let entry = KeyEntry {
            id: next_id(entries) as i64,
            master_key_ref,
            wrapped_key: first_wrapped,
        };
        lemma_first_match_push(entries, master_key_ref, entry, 0);
    }
}

} // verus!
