//! The user store: users keyed by id, with a second index from email to
//! user id. Registration rejects a duplicate email; email uniqueness is an
//! invariant of the store.

use vstd::prelude::*;

use crate::errors::GatewayError;
use crate::lookup::Keyed;
use crate::lookup::lemma_key_index_at;
use crate::lookup::lemma_key_index_none;
use crate::lookup::lemma_keyed_upsert;
use crate::lookup::spec_distinct_keys;
use crate::lookup::spec_key_index;
use crate::lookup::spec_keyed_find;
use crate::lookup::spec_keyed_upsert;
use crate::strutil::str_eq;
use crate::user::User;
use crate::user::UserView;

verus! {

/// Users are looked up by id.
impl Keyed<u128> for UserView {
    open spec fn key(self) -> u128 {
        self.id
    }
}

/// The mathematical value of an email-index entry.
#[verifier::ext_equal]
pub struct EmailEntryView {
    pub email: Seq<char>,
    pub user_id: u128,
}

/// One email-index entry: the id registered under an email.
#[derive(Debug)]
struct EmailEntry {
    email: String,
    user_id: u128,
}

impl View for EmailEntry {
    type V = EmailEntryView;

    closed spec fn view(&self) -> EmailEntryView {
        EmailEntryView { email: self.email@, user_id: self.user_id }
    }
}

impl DeepView for EmailEntry {
    type V = EmailEntryView;

    closed spec fn deep_view(&self) -> EmailEntryView {
        self.view()
    }
}

/// Email entries are looked up by email.
impl Keyed<Seq<char>> for EmailEntryView {
    open spec fn key(self) -> Seq<char> {
        self.email
    }
}

/// The mathematical value of a [`UserStore`].
#[verifier::ext_equal]
pub struct UserStoreView {
    pub users: Seq<UserView>,
    pub email_index: Seq<EmailEntryView>,
}

/// The persistent map of users, with its email index. The caller persists a
/// snapshot after each mutation; the in-memory state is authoritative at
/// runtime.
pub struct UserStore {
    users: Vec<User>,
    email_index: Vec<EmailEntry>,
}

impl View for UserStore {
    type V = UserStoreView;

    closed spec fn view(&self) -> UserStoreView {
        UserStoreView {
            users: self.users.deep_view(),
            email_index: self.email_index.deep_view(),
        }
    }
}

impl UserStore {
    /// User ids and indexed emails are pairwise distinct.
    pub open spec fn wf(self) -> bool {
        &&& spec_distinct_keys(self@.users)
        &&& spec_distinct_keys(self@.email_index)
    }

    /// Build a store from loaded users: each user is stored under its id and
    /// indexed by email, and a later record with an already-seen id or email
    /// replaces the earlier entry. When the loaded ids and emails are
    /// pairwise distinct — as any store this library saved has them — every
    /// user is found back exactly as loaded.
    /// Build a store from loaded users: each user is stored under its id and
    /// indexed by email, and a later record with an already-seen id or email
    /// replaces the earlier entry. When the loaded ids and emails are
    /// pairwise distinct — as any store this library saved has them — every
    /// user is found back exactly as loaded.
    /// Build a store from loaded users: each user is stored under its id and
    /// indexed by email, and a later record with an already-seen id or email
    /// replaces the earlier entry. When the loaded ids and emails are
    /// pairwise distinct — as any store this library saved has them — every
    /// user and every email binding is found back exactly as loaded.
    #[verifier::rlimit(30)]
    pub fn new(users: Vec<User>) -> (r: UserStore)
        ensures
            r.wf(),
            r@.users.len() <= users.deep_view().len(),
            r@.email_index.len() <= users.deep_view().len(),
            forall |i: int| #![auto]
                0 <= i < users.deep_view().len() ==> spec_keyed_find(
                    r@.users,
                    users.deep_view()[i].id,
                ) is Some && spec_keyed_find(r@.email_index, users.deep_view()[i].email) is Some,
            forall |k: u128|
                #![trigger spec_keyed_find(r@.users, k)]
                spec_keyed_find(r@.users, k) is Some ==> exists |i: int| #![auto]
                    0 <= i < users.deep_view().len() && spec_keyed_find(r@.users, k) == Some(
                    users.deep_view()[i]),
            spec_distinct_keys(users.deep_view()) ==> forall |i: int| #![auto]
                0 <= i < users.deep_view().len() ==> spec_keyed_find(
                    r@.users,
                    users.deep_view()[i].id,
                ) == Some(users.deep_view()[i]),
            (forall |p: int, q: int|
                0 <= p < q < users.deep_view().len() ==> (#[trigger] users.deep_view()[p]).email
                    != (#[trigger] users.deep_view()[q]).email) ==> forall |i: int| #![auto]
                0 <= i < users.deep_view().len() ==> spec_keyed_find(
                    r@.email_index,
                    users.deep_view()[i].email,
                ) == Some(
                    EmailEntryView {
                        email: users.deep_view()[i].email,
                        user_id: users.deep_view()[i].id,
                    },
                ),
    {
        let ghost uv = users.deep_view();
        let mut store = UserStore { users: Vec::new(), email_index: Vec::new() };
        let n = users.len();

        // First pass: bind each email to its user id.
        let mut i: usize = 0;
        while i < n
            invariant
                i <= n,
                n == uv.len(),
                users.deep_view() == uv,
                store@.users.len() == 0,
                spec_distinct_keys(store@.email_index),
                store@.email_index.len() <= i,
                forall |j: int| #![auto]
                    0 <= j < i ==> spec_keyed_find(store@.email_index, uv[j].email) is Some,
                (forall |p: int, q: int|
                    0 <= p < q < uv.len() ==> (#[trigger] uv[p]).email != (
                    #[trigger] uv[q]).email) ==> forall |j: int| #![auto]
                    0 <= j < i ==> spec_keyed_find(store@.email_index, uv[j].email) == Some(
                        EmailEntryView { email: uv[j].email, user_id: uv[j].id },
                    ),
            decreases n - i,
        {
            let user = &users[i];
            let ghost entry = EmailEntryView { email: user@.email, user_id: user@.id };
            let ghost before = store@.email_index;
            store.upsert_email(user.email.clone(), user.id);
            proof {
                lemma_keyed_upsert(before, entry, entry.email);
                crate::lookup::lemma_key_index(before, entry.email);
                assert(store@.email_index.len() <= before.len() + 1);
                assert forall |j: int| #![auto] 0 <= j < i + 1 implies spec_keyed_find(
                    store@.email_index,
                    uv[j].email,
                ) is Some by {
                    lemma_keyed_upsert(before, entry, uv[j].email);
                }
                if (forall |p: int, q: int|
                    0 <= p < q < uv.len() ==> (#[trigger] uv[p]).email != (
                    #[trigger] uv[q]).email) {
                    assert forall |j: int| #![auto] 0 <= j < i + 1 implies spec_keyed_find(
                        store@.email_index,
                        uv[j].email,
                    ) == Some(EmailEntryView { email: uv[j].email, user_id: uv[j].id }) by {
                        lemma_keyed_upsert(before, entry, uv[j].email);
                        if j < i {
                            assert(uv[j].email != uv[i as int].email);
                        }
                    }
                }
            }
            i = i + 1;
        }
        let ghost emails_built = store@.email_index;

        // Second pass: store each user under its id.
        let mut i: usize = 0;
        while i < n
            invariant
                i <= n,
                n == uv.len(),
                users.deep_view() == uv,
                store@.email_index == emails_built,
                spec_distinct_keys(store@.users),
                store@.users.len() <= i,
                forall |j: int| #![auto]
                    0 <= j < i ==> spec_keyed_find(store@.users, uv[j].id) is Some,
                forall |k: u128|
                    #![trigger spec_keyed_find(store@.users, k)]
                    spec_keyed_find(store@.users, k) is Some ==> exists |j: int| #![auto]
                        0 <= j < i && spec_keyed_find(store@.users, k) == Some(uv[j]),
                spec_distinct_keys(uv) ==> forall |j: int| #![auto]
                    0 <= j < i ==> spec_keyed_find(store@.users, uv[j].id) == Some(uv[j]),
            decreases n - i,
        {
            let user = users[i].clone();
            let ghost userv = user@;
            let ghost before = store@.users;
            store.upsert_user(user);
            proof {
                lemma_keyed_upsert(before, userv, userv.id);
                crate::lookup::lemma_key_index(before, userv.id);
                assert(store@.users.len() <= before.len() + 1);
                assert forall |k: u128|
                    #![trigger spec_keyed_find(store@.users, k)]
                    spec_keyed_find(store@.users, k) is Some implies exists |j: int| #![auto]
                        0 <= j < i + 1 && spec_keyed_find(store@.users, k) == Some(uv[j]) by {
                    lemma_keyed_upsert(before, userv, k);
                    if k == userv.id {
                        assert(spec_keyed_find(store@.users, k) == Some(uv[i as int]));
                    }
                }
                assert forall |j: int| #![auto] 0 <= j < i + 1 implies spec_keyed_find(
                    store@.users,
                    uv[j].id,
                ) is Some by {
                    lemma_keyed_upsert(before, userv, uv[j].id);
                }
                if spec_distinct_keys(uv) {
                    assert forall |j: int| #![auto] 0 <= j < i + 1 implies spec_keyed_find(
                        store@.users,
                        uv[j].id,
                    ) == Some(uv[j]) by {
                        lemma_keyed_upsert(before, userv, uv[j].id);
                        if j < i {
                            assert(uv[j].key() != uv[i as int].key());
                        }
                    }
                }
            }
            i = i + 1;
        }
        store
    }

    /// Register `user`. Fails with `BadRequest` exactly when the email is
    /// already registered; otherwise stores the user, indexes the email, and
    /// returns the stored copy.
    pub fn create_user(&mut self, user: User) -> (r: Result<User, GatewayError>)
        requires
            old(self).wf(),
        ensures
            final(self).wf(),
            r is Err <==> spec_keyed_find(old(self)@.email_index, user@.email) is Some,
            r matches Err(e) ==> {
                &&& final(self)@ == old(self)@
                &&& e matches GatewayError::BadRequest(m) && m@ == "Email already registered"@
            },
            r matches Ok(u) ==> {
                &&& u@ == user@
                &&& final(self)@.users == spec_keyed_upsert(old(self)@.users, user@)
                &&& final(self)@.email_index == spec_keyed_upsert(
                    old(self)@.email_index,
                    EmailEntryView { email: user@.email, user_id: user@.id },
                )
                &&& spec_keyed_find(final(self)@.users, user@.id) == Some(user@)
                &&& spec_keyed_find(final(self)@.email_index, user@.email) == Some(
                    EmailEntryView { email: user@.email, user_id: user@.id },
                )
            },
    {
        if self.email_registered(user.email.as_str()) {
            return Err(GatewayError::BadRequest(String::from_str("Email already registered")));
        }
        let ghost userv = user@;
        let ghost entry = EmailEntryView { email: user@.email, user_id: user@.id };
        let ghost before_users = self@.users;
        let ghost before_emails = self@.email_index;
        let stored = user.clone();
        self.upsert_email(user.email.clone(), user.id);
        self.upsert_user(user);
        proof {
            lemma_keyed_upsert(before_users, userv, userv.id);
            lemma_keyed_upsert(before_emails, entry, entry.email);
        }
        Ok(stored)
    }

    /// The user with id `id`, as a copy, if registered.
    pub fn get_user(&self, id: u128) -> (r: Option<User>)
        ensures
            r is Some <==> spec_keyed_find(self@.users, id) is Some,
            r matches Some(u) ==> spec_keyed_find(self@.users, id) == Some(u@),
    {
        let ghost uv = self@.users;
        let n = self.users.len();
        let mut i: usize = 0;
        while i < n
            invariant
                i <= n,
                n == uv.len(),
                uv == self@.users,
                forall |j: int| 0 <= j < i ==> (#[trigger] uv[j]).id != id,
            decreases n - i,
        {
            if self.users[i].id == id {
                proof {
                    assert(uv[i as int].id == id);
                    lemma_key_index_at(uv, id, i as int);
                }
                return Some(self.users[i].clone());
            }
            i = i + 1;
        }
        proof {
            lemma_key_index_none(uv, id);
        }
        None
    }

    /// The user registered under `email`, as a copy: looked up through the
    /// email index, then by the indexed id.
    pub fn get_user_by_email(&self, email: &str) -> (r: Option<User>)
        ensures
            spec_keyed_find(self@.email_index, email@) is None ==> r is None,
            spec_keyed_find(self@.email_index, email@) matches Some(e) ==> {
                &&& (r is Some <==> spec_keyed_find(self@.users, e.user_id) is Some)
                &&& (r matches Some(u) ==> spec_keyed_find(self@.users, e.user_id) == Some(u@))
            },
    {
        let ghost ev = self@.email_index;
        let n = self.email_index.len();
        let mut i: usize = 0;
        while i < n
            invariant
                i <= n,
                n == ev.len(),
                ev == self@.email_index,
                forall |j: int| 0 <= j < i ==> (#[trigger] ev[j]).email != email@,
            decreases n - i,
        {
            if str_eq(self.email_index[i].email.as_str(), email) {
                proof {
                    assert(ev[i as int].email == email@);
                    lemma_key_index_at(ev, email@, i as int);
                }
                return self.get_user(self.email_index[i].user_id);
            }
            i = i + 1;
        }
        proof {
            lemma_key_index_none(ev, email@);
        }
        None
    }

    /// Store `user` under its id, replacing any previous record. The email
    /// index is left as it is: registration is the only path that binds an
    /// email.
    pub fn update_user(&mut self, user: User)
        requires
            old(self).wf(),
        ensures
            final(self).wf(),
            final(self)@.users == spec_keyed_upsert(old(self)@.users, user@),
            final(self)@.email_index == old(self)@.email_index,
            spec_keyed_find(final(self)@.users, user@.id) == Some(user@),
            forall |k: u128|
                #![trigger spec_keyed_find(final(self)@.users, k)]
                k != user@.id ==> spec_keyed_find(final(self)@.users, k) == spec_keyed_find(
                    old(self)@.users,
                    k,
                ),
    {
        let ghost userv = user@;
        let ghost before = self@.users;
        self.upsert_user(user);
        proof {
            lemma_keyed_upsert(before, userv, userv.id);
            assert forall |k: u128|
                #![trigger spec_keyed_find(self@.users, k)]
                k != userv.id implies spec_keyed_find(self@.users, k) == spec_keyed_find(
                before,
                k,
            ) by {
                lemma_keyed_upsert(before, userv, k);
            }
        }
    }

    /// Copies of every user, in store order, for persistence.
    pub fn export_users(&self) -> (r: Vec<User>)
        ensures
            r.deep_view() == self@.users,
    {
        let ghost uv = self@.users;
        let mut out: Vec<User> = Vec::new();
        let n = self.users.len();
        let mut i: usize = 0;
        while i < n
            invariant
                i <= n,
                n == uv.len(),
                uv == self@.users,
                out@.len() == i,
                out.deep_view() == uv.subrange(0, i as int),
            decreases n - i,
        {
            out.push(self.users[i].clone());
            proof {
                assert(out.deep_view() =~= uv.subrange(0, i as int + 1));
            }
            i = i + 1;
        }
        proof {
            assert(uv.subrange(0, n as int) =~= uv);
        }
        out
    }

    /// Whether `email` is already bound in the index.
    fn email_registered(&self, email: &str) -> (r: bool)
        ensures
            r == (spec_keyed_find(self@.email_index, email@) is Some),
    {
        let ghost ev = self@.email_index;
        let n = self.email_index.len();
        let mut i: usize = 0;
        while i < n
            invariant
                i <= n,
                n == ev.len(),
                ev == self@.email_index,
                forall |j: int| 0 <= j < i ==> (#[trigger] ev[j]).email != email@,
            decreases n - i,
        {
            if str_eq(self.email_index[i].email.as_str(), email) {
                proof {
                    assert(ev[i as int].email == email@);
                    lemma_key_index_at(ev, email@, i as int);
                }
                return true;
            }
            i = i + 1;
        }
        proof {
            lemma_key_index_none(ev, email@);
        }
        false
    }

    /// Store `user` under its id, replacing the first record with that id
    /// or appending.
    fn upsert_user(&mut self, user: User)
        ensures
            final(self)@.users == spec_keyed_upsert(old(self)@.users, user@),
            final(self)@.email_index == old(self)@.email_index,
            spec_distinct_keys(old(self)@.users) ==> spec_distinct_keys(final(self)@.users),
    {
        let ghost before = self@.users;
        let ghost userv = user@;
        proof {
            lemma_keyed_upsert(before, userv, userv.id);
        }
        let n = self.users.len();
        let mut i: usize = 0;
        while i < n
            invariant
                i <= n,
                n == self.users.deep_view().len(),
                self.users.deep_view() == before,
                self.email_index.deep_view() == old(self)@.email_index,
                before == old(self)@.users,
                userv == user@,
                forall |j: int| 0 <= j < i ==> (#[trigger] before[j]).id != userv.id,
            decreases n - i,
        {
            if self.users[i].id == user.id {
                proof {
                    assert(before[i as int].id == userv.id);
                    lemma_key_index_at(before, userv.id, i as int);
                    lemma_keyed_upsert(before, userv, userv.id);
                }
                self.users.set(i, user);
                proof {
                    assert(self.users.deep_view() =~= before.update(i as int, userv));
                }
                return;
            }
            i = i + 1;
        }
        proof {
            lemma_key_index_none(before, userv.id);
        }
        self.users.push(user);
        proof {
            assert(self.users.deep_view() =~= before.push(userv));
        }
    }

    /// Bind `email` to `user_id`, replacing the first entry with that email
    /// or appending.
    fn upsert_email(&mut self, email: String, user_id: u128)
        ensures
            final(self)@.email_index == spec_keyed_upsert(
                old(self)@.email_index,
                EmailEntryView { email: email@, user_id },
            ),
            final(self)@.users == old(self)@.users,
            spec_distinct_keys(old(self)@.email_index) ==> spec_distinct_keys(
                final(self)@.email_index,
            ),
    {
        let ghost before = self@.email_index;
        let ghost entry = EmailEntryView { email: email@, user_id };
        proof {
            lemma_keyed_upsert(before, entry, entry.email);
        }
        let n = self.email_index.len();
        let mut i: usize = 0;
        while i < n
            invariant
                i <= n,
                n == self.email_index.deep_view().len(),
                self.email_index.deep_view() == before,
                self.users.deep_view() == old(self)@.users,
                before == old(self)@.email_index,
                entry == (EmailEntryView { email: email@, user_id }),
                forall |j: int| 0 <= j < i ==> (#[trigger] before[j]).email != email@,
            decreases n - i,
        {
            if str_eq(self.email_index[i].email.as_str(), email.as_str()) {
                proof {
                    assert(before[i as int].email == entry.email);
                    lemma_key_index_at(before, entry.email, i as int);
                }
                self.email_index.set(i, EmailEntry { email, user_id });
                proof {
                    assert(self.email_index.deep_view() =~= before.update(i as int, entry));
                }
                return;
            }
            i = i + 1;
        }
        proof {
            lemma_key_index_none(before, entry.email);
        }
        self.email_index.push(EmailEntry { email, user_id });
        proof {
            assert(self.email_index.deep_view() =~= before.push(entry));
        }
    }
}

} // verus!
