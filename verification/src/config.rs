//! The configuration.
use crate::account::ConnectionInfo;
use crate::table::{Key, Table};
use vstd::prelude::*;

verus! {

/// What the user has configured.
pub struct Config {
    /// The accounts, under the names that the user gave them.
    pub accounts: Table<String, ConnectionInfo>,
}

impl Config {
    /// Whether every account that connects by itself has a password to do so.
    pub open spec fn can_start(self) -> bool {
        forall|i: int|
            0 <= i < self.accounts.entries().len() && (
            #[trigger] self.accounts.entries()[i]).1.autoconnect
                ==> self.accounts.entries()[i].1.password is Some
    }

    /// Whether every account that connects by itself has a password to do so.
    pub fn check_start(&self) -> (r: bool)
        ensures
            r == self.can_start(),
    {
        let mut i: usize = 0;
        while i < self.accounts.len()
            invariant
                i <= self.accounts.entries().len(),
                forall|j: int|
                    0 <= j < i && (#[trigger] self.accounts.entries()[j]).1.autoconnect
                        ==> self.accounts.entries()[j].1.password is Some,
            decreases self.accounts.entries().len() - i,
        {
            let account = &self.accounts.at(i).1;
            if account.autoconnect && account.password.is_none() {
                return false;
            }
            i += 1;
        }
        true
    }
}

impl Default for Config {
    fn default() -> (r: Self)
        ensures
            r.accounts@ == Map::<Seq<Seq<char>>, ConnectionInfo>::empty(),
            r.accounts.entries().len() == 0,
    {
        Config { accounts: Table::new() }
    }
}

impl Clone for Config {
    fn clone(&self) -> (r: Self)
        ensures
            r.accounts@ == self.accounts@,
            r.accounts.entries() == self.accounts.entries(),
    {
        let mut accounts: Table<String, ConnectionInfo> = Table::new();
        let mut i: usize = 0;
        while i < self.accounts.len()
            invariant
                i <= self.accounts.entries().len(),
                accounts.entries() == self.accounts.entries().take(i as int),
            decreases self.accounts.entries().len() - i,
        {
            let entry = self.accounts.at(i);
            proof {
                accounts.lemma_keys(entry.0.id());
                assert(forall|j: int|
                    0 <= j < i ==> accounts.entries()[j] == #[trigger] self.accounts.entries()[j]);
            }
            accounts.insert(entry.0.clone(), entry.1.clone());
            proof {
                assert(self.accounts.entries().take(i as int).push(*entry)
                    =~= self.accounts.entries().take(i + 1));
            }
            i += 1;
        }
        proof {
            assert(self.accounts.entries().take(i as int) =~= self.accounts.entries());
            accounts.lemma_same_entries(self.accounts);
        }
        Config { accounts }
    }
}

} // verus!
