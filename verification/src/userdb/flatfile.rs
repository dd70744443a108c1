//! A user directory that is held in memory, as a file gave it.

use vstd::hash_map::StringHashMap;
use vstd::prelude::*;
use vstd::string::*;

use crate::config::{FlatfileUserRecord, UserDbConfig};
use crate::text::{join3, texts};
use crate::userdb::{Answer, UserDb};

verus! {

/// The addresses of each uid.
pub struct UserMap {
    users: StringHashMap<Vec<String>>,
}

impl View for UserMap {
    type V = Map<Seq<char>, Seq<Seq<char>>>;

    closed spec fn view(&self) -> Map<Seq<char>, Seq<Seq<char>>> {
        self.users@.map_values(|v: Vec<String>| texts(v@))
    }
}

fn copy_texts(list: &Vec<String>) -> (r: Vec<String>)
    ensures
        texts(r@) == texts(list@),
{
    let mut out: Vec<String> = Vec::new();
    let mut i: usize = 0;
    while i < list.len()
        invariant
            i <= list@.len(),
            texts(out@) == texts(list@).take(i as int),
        decreases list@.len() - i,
    {
        let ghost before = out@;
        out.push(list[i].clone());
        assert(texts(out@) == texts(before).push(list@[i as int]@));
        i = i + 1;
    }
    out
}

impl UserMap {
    /// A map without users.
    pub fn new() -> (r: UserMap)
        ensures
            r@ == Map::<Seq<char>, Seq<Seq<char>>>::empty(),
    {
        let r: UserMap = UserMap { users: StringHashMap::new() };
        assert(r@ =~= Map::<Seq<char>, Seq<Seq<char>>>::empty());
        r
    }

    /// Sets the addresses of a uid.
    pub fn insert(&mut self, uid: String, addresses: Vec<String>)
        ensures
            final(self)@ == old(self)@.insert(uid@, texts(addresses@)),
    {
        self.users.insert(uid, addresses);
        assert(self@ =~= old(self)@.insert(uid@, texts(addresses@)));
    }

    /// The addresses of a uid, if it is known.
    pub fn get(&self, uid: &str) -> (r: Option<&Vec<String>>)
        ensures
            match r {
                Some(list) => self@.contains_key(uid@) && self@[uid@] == texts(list@),
                None => !self@.contains_key(uid@),
            },
    {
        self.users.get(uid)
    }
}

/// The users of a file by uid. Of two records with one uid the later counts.
pub open spec fn users_in(list: Seq<(String, FlatfileUserRecord)>) -> Map<
    Seq<char>,
    Seq<Seq<char>>,
>
    decreases list.len(),
{
    if list.len() == 0 {
        Map::empty()
    } else {
        users_in(list.drop_last()).insert(list.last().0@, texts(list.last().1.addresses@))
    }
}

/// The message for a file that is not of this backend any more.
pub open spec fn switched_message(path: Seq<char>) -> Seq<char> {
    "userdb config at "@ + path
        + " switched to backend: ldap; FlatFileUserDb cannot reload it (restart with the correct backend)"@
}

/// The users that a configuration holds.
pub fn read_users(cfg: &UserDbConfig, path: &str) -> (r: Result<UserMap, String>)
    ensures
        match *cfg {
            UserDbConfig::Flatfile(f) => r is Ok && r->Ok_0@ == users_in(f.users@),
            UserDbConfig::Ldap(_) => r is Err && r->Err_0@ == switched_message(path@),
        },
{
    match cfg {
        UserDbConfig::Flatfile(f) => {
            let mut users: UserMap = UserMap::new();
            let mut i: usize = 0;
            while i < f.users.len()
                invariant
                    i <= f.users@.len(),
                    users@ == users_in(f.users@.take(i as int)),
                decreases f.users@.len() - i,
            {
                users.insert(f.users[i].0.clone(), copy_texts(&f.users[i].1.addresses));
                i = i + 1;
                assert(f.users@.take(i as int).drop_last() == f.users@.take(i - 1));
            }
            assert(f.users@.take(i as int) == f.users@);
            Ok(users)
        },
        UserDbConfig::Ldap(_) => Err(
            join3(
                "userdb config at ",
                path,
                " switched to backend: ldap; FlatFileUserDb cannot reload it (restart with the correct backend)",
            ),
        ),
    }
}

/// The addresses that the map gives a uid, none for a uid that it lacks.
pub open spec fn addresses_of(users: Map<Seq<char>, Seq<Seq<char>>>, uid: Seq<char>) -> Seq<
    Seq<char>,
> {
    if users.contains_key(uid) {
        users[uid]
    } else {
        seq![]
    }
}

/// The user directory of the backend `flatfile`.
pub struct FlatFileUserDb {
    users: UserMap,
}

impl View for FlatFileUserDb {
    type V = Map<Seq<char>, Seq<Seq<char>>>;

    closed spec fn view(&self) -> Map<Seq<char>, Seq<Seq<char>>> {
        self.users@
    }
}

impl FlatFileUserDb {
    /// A directory with these users.
    pub fn from_map(users: UserMap) -> (r: FlatFileUserDb)
        ensures
            r@ == users@,
    {
        FlatFileUserDb { users }
    }

    /// A directory with the users of the configuration at `path`.
    pub fn from_config(cfg: &UserDbConfig, path: &str) -> (r: Result<FlatFileUserDb, String>)
        ensures
            match *cfg {
                UserDbConfig::Flatfile(f) => r is Ok && r->Ok_0@ == users_in(f.users@),
                UserDbConfig::Ldap(_) => r is Err && r->Err_0@ == switched_message(path@),
            },
    {
        match read_users(cfg, path) {
            Ok(users) => Ok(FlatFileUserDb { users }),
            Err(e) => Err(e),
        }
    }

    /// Takes over what the file at `path` holds now. Where it could not be
    /// read, or is not of this backend any more, the users stay as they were.
    pub fn reload(&mut self, read: &Result<UserDbConfig, String>, path: &str) -> (r: Result<
        (),
        String,
    >)
        ensures
            match *read {
                Ok(UserDbConfig::Flatfile(f)) => r is Ok && final(self)@ == users_in(f.users@),
                Ok(UserDbConfig::Ldap(_)) => r is Err && r->Err_0@ == switched_message(path@)
                    && final(self)@ == old(self)@,
                Err(e) => r is Err && r->Err_0@ == e@ && final(self)@ == old(self)@,
            },
    {
        match read {
            Ok(cfg) => match read_users(cfg, path) {
                Ok(users) => {
                    self.users = users;
                    Ok(())
                },
                Err(e) => Err(e),
            },
            Err(e) => Err(e.clone()),
        }
    }
}

impl UserDb for FlatFileUserDb {
    open spec fn may_answer(&self, uid: Seq<char>, answer: Answer) -> bool {
        answer == Ok::<Seq<Seq<char>>, Seq<char>>(addresses_of(self@, uid))
    }

    fn addresses_for_user(&self, uid: &str) -> (r: Result<Vec<String>, String>) {
        match self.users.get(uid) {
            Some(list) => Ok(copy_texts(list)),
            None => {
                let none: Vec<String> = Vec::new();
                assert(texts(none@) == Seq::<Seq<char>>::empty());
                Ok(none)
            },
        }
    }
}

/// A uid has the addresses of the last record that is for it, all of them and in
/// their order, wherever that record stands.
pub proof fn last_record_of_a_uid_counts(list: Seq<(String, FlatfileUserRecord)>, i: int)
    requires
        0 <= i < list.len(),
        forall|j: int| i < j < list.len() ==> (#[trigger] list[j]).0@ != list[i].0@,
    ensures
        users_in(list).contains_key(list[i].0@),
        users_in(list)[list[i].0@].len() == list[i].1.addresses@.len(),
        forall|k: int|
            0 <= k < list[i].1.addresses@.len() ==> #[trigger] users_in(list)[list[i].0@][k]
                == list[i].1.addresses@[k]@,
        addresses_of(users_in(list), list[i].0@) == users_in(list)[list[i].0@],
    decreases list.len(),
{
    if i < list.len() - 1 {
        let fewer = list.drop_last();
        assert forall|j: int| i < j < fewer.len() implies (#[trigger] fewer[j]).0@
            != fewer[i].0@ by {
            assert(list[j].0@ != list[i].0@);
        }
        last_record_of_a_uid_counts(fewer, i);
        assert(list[list.len() - 1].0@ != list[i].0@);
        assert forall|k: int|
            0 <= k < list[i].1.addresses@.len() implies #[trigger] users_in(list)[list[i].0@][k]
            == list[i].1.addresses@[k]@ by {
            assert(users_in(fewer)[fewer[i].0@][k] == list[i].1.addresses@[k]@);
        }
    }
}

/// A uid without a record is not known, and has no addresses.
pub proof fn unknown_uid_has_no_addresses(
    list: Seq<(String, FlatfileUserRecord)>,
    uid: Seq<char>,
)
    requires
        forall|j: int| 0 <= j < list.len() ==> (#[trigger] list[j]).0@ != uid,
    ensures
        !users_in(list).contains_key(uid),
        addresses_of(users_in(list), uid).len() == 0,
    decreases list.len(),
{
    if list.len() > 0 {
        let fewer = list.drop_last();
        assert forall|j: int| 0 <= j < fewer.len() implies (#[trigger] fewer[j]).0@ != uid by {
            assert(list[j].0@ != uid);
        }
        unknown_uid_has_no_addresses(fewer, uid);
        assert(list[list.len() - 1].0@ != uid);
    }
}

/// The directory answers with the addresses that it holds of a uid, with none for a
/// uid that it does not know, and never with an error.
pub proof fn directory_answers_with_what_it_holds(
    db: FlatFileUserDb,
    uid: Seq<char>,
    answer: Answer,
)
    requires
        db.may_answer(uid, answer),
    ensures
        answer is Ok,
        db@.contains_key(uid) ==> answer->Ok_0 == db@[uid],
        !db@.contains_key(uid) ==> answer->Ok_0.len() == 0,
{
}

/// The error about a file of the other backend names the file.
pub proof fn switched_backend_is_named(path: Seq<char>)
    ensures
        switched_message(path) == "userdb config at "@ + path
            + " switched to backend: ldap; FlatFileUserDb cannot reload it (restart with the correct backend)"@,
{
}

} // verus!
