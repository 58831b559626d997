//! The connections of the accounts.
//!
//! Connections come and are replaced, and none goes away. The account that was connected last is
//! the current one, and it always has a connection: that is the type's invariant.
use crate::account::{Account, JidView};
use crate::stanza::Element;
use crate::table::{Key, Table};
use vstd::prelude::*;

verus! {

/// A connection of an account.
pub struct Connection {
    /// What the connection is to write, the next first.
    pub sink: Vec<Element>,
}

/// The key of the connection of the account with this address.
pub open spec fn account_id(account: JidView) -> Seq<Seq<char>> {
    seq![account.text()]
}

/// The connections of the accounts, and the account that was connected last.
pub struct Connections {
    table: Table<Account, Connection>,
    current: Option<Account>,
}

impl View for Connections {
    type V = Map<Seq<Seq<char>>, Connection>;

    closed spec fn view(&self) -> Map<Seq<Seq<char>>, Connection> {
        self.table@
    }
}

impl Connections {
    /// The account that was connected last.
    pub closed spec fn current(self) -> Option<Account> {
        self.current
    }

    /// Whether the current account has a connection.
    #[verifier::type_invariant]
    pub open spec fn current_is_connected(self) -> bool {
        self.current() is Some ==> self@.contains_key(account_id(self.current()->0@))
    }

    /// Whether no connection was taken away, and there still is a current account where there was
    /// one.
    pub open spec fn keeps(self, after: Self) -> bool {
        &&& forall|id: Seq<Seq<char>>| #[trigger]
            self@.contains_key(id) ==> after@.contains_key(id)
        &&& self.current() is Some ==> after.current() is Some
    }

    /// No connections.
    pub(crate) fn new() -> (r: Self)
        ensures
            r@ == Map::<Seq<Seq<char>>, Connection>::empty(),
            r.current() is None,
    {
        Connections { table: Table::new(), current: None }
    }

    /// Whether the account has a connection.
    pub fn contains_key(&self, account: &Account) -> (r: bool)
        ensures
            r == self@.contains_key(account_id(account@)),
    {
        assert(account.id() == account_id(account@));
        self.table.contains_key(account)
    }

    /// The account that was connected last. It has a connection.
    pub fn current_account(&self) -> (r: Option<Account>)
        ensures
            r == self.current(),
            r is Some ==> self@.contains_key(account_id(r->0@)),
    {
        proof {
            use_type_invariant(self);
        }
        match &self.current {
            Some(account) => Some(account.clone()),
            None => None,
        }
    }

    /// Takes the table out for a while; there is no current account until it is back.
    fn lend(&mut self) -> (r: (Table<Account, Connection>, Option<Account>))
        ensures
            r.0@ == old(self)@,
            r.1 == old(self).current(),
            r.1 is Some ==> r.0@.contains_key(account_id(r.1->0@)),
            final(self).current() is None,
    {
        proof {
            use_type_invariant(&*self);
        }
        let mut current: Option<Account> = None;
        core::mem::swap(&mut current, &mut self.current);
        let mut table: Table<Account, Connection> = Table::new();
        core::mem::swap(&mut table, &mut self.table);
        (table, current)
    }

    /// Adds the connection of an account, makes the account the current one, and gives its earlier
    /// connection back.
    pub(crate) fn add(&mut self, account: Account, connection: Connection) -> (r: Option<
        Connection,
    >)
        ensures
            final(self)@ == old(self)@.insert(account_id(account@), connection),
            final(self).current() == Some(account),
            match r {
                Some(earlier) => {
                    &&& old(self)@.contains_key(account_id(account@))
                    &&& earlier == old(self)@[account_id(account@)]
                },
                None => !old(self)@.contains_key(account_id(account@)),
            },
            old(self).keeps(*final(self)),
    {
        let ghost before = self@;
        let ghost id = account_id(account@);
        assert(account.id() == id);
        let (mut table, _) = self.lend();
        let earlier = table.remove(&account);
        table.insert(account.clone(), connection);
        assert(before.remove(id).insert(id, connection) =~= before.insert(id, connection));
        self.table = table;
        self.current = Some(account);
        earlier
    }

    /// Hands a stanza to the connection of the account, where it has one.
    pub(crate) fn write(&mut self, account: &Account, stanza: Element)
        ensures
            final(self).current() == old(self).current(),
            ({
                let id = account_id(account@);
                if old(self)@.contains_key(id) {
                    &&& final(self)@ == old(self)@.insert(id, final(self)@[id])
                    &&& final(self)@[id].sink@ == old(self)@[id].sink@.push(stanza)
                } else {
                    final(self)@ == old(self)@
                }
            }),
            old(self).keeps(*final(self)),
    {
        let ghost before = self@;
        let ghost id = account_id(account@);
        assert(account.id() == id);
        let (mut table, current) = self.lend();
        match table.remove(account) {
            Some(mut connection) => {
                connection.sink.push(stanza);
                table.insert(account.clone(), connection);
                assert(table@ =~= before.insert(id, table@[id]));
            },
            None => {
                assert(before.remove(id) =~= before);
            },
        }
        self.table = table;
        self.current = current;
    }

    /// Takes out what the connection of the account is to write.
    pub(crate) fn take(&mut self, account: &Account) -> (r: Vec<Element>)
        ensures
            final(self).current() == old(self).current(),
            ({
                let id = account_id(account@);
                if old(self)@.contains_key(id) {
                    &&& r == old(self)@[id].sink
                    &&& final(self)@ == old(self)@.insert(id, final(self)@[id])
                    &&& final(self)@[id].sink@.len() == 0
                } else {
                    r@.len() == 0 && final(self)@ == old(self)@
                }
            }),
            old(self).keeps(*final(self)),
    {
        let ghost before = self@;
        let ghost id = account_id(account@);
        assert(account.id() == id);
        let (mut table, current) = self.lend();
        let taken = match table.remove(account) {
            Some(connection) => {
                table.insert(account.clone(), Connection { sink: Vec::new() });
                assert(table@ =~= before.insert(id, table@[id]));
                connection.sink
            },
            None => {
                assert(before.remove(id) =~= before);
                Vec::new()
            },
        };
        self.table = table;
        self.current = current;
        taken
    }
}

} // verus!
