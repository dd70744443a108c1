//! The user directory: which addresses a uid may manage.

use vstd::prelude::*;
use vstd::string::*;

use crate::config::UserDbConfig;
use crate::text::texts;

pub mod flatfile;
pub mod ldap;

pub use flatfile::FlatFileUserDb;
pub use ldap::LdapUserDb;

verus! {

/// What a user directory says of a uid: its addresses, or why they could not be
/// found out.
pub type Answer = Result<Seq<Seq<char>>, Seq<char>>;

/// An answer as mathematical values.
pub open spec fn answer_view(r: Result<Vec<String>, String>) -> Answer {
    match r {
        Ok(list) => Ok(texts(list@)),
        Err(e) => Err(e@),
    }
}

/// Resolves an authenticated uid to the addresses that it may manage.
pub trait UserDb {
    /// Whether the directory may say this of a uid. A directory that changes, or
    /// that can fail, may say different things at different times.
    spec fn may_answer(&self, uid: Seq<char>, answer: Answer) -> bool;

    /// Every address that this user may manage. A uid that does not exist, or
    /// that owns nothing, has an empty list; that is no error.
    fn addresses_for_user(&self, uid: &str) -> (r: Result<Vec<String>, String>)
        ensures
            self.may_answer(uid@, answer_view(r)),
    ;
}

/// A user directory of either backend.
pub enum Backend {
    Flatfile(FlatFileUserDb),
    Ldap(LdapUserDb),
}

/// Makes the user directory that the configuration at `path` asks for.
pub fn build_userdb(cfg: UserDbConfig, path: &str) -> (r: Result<Backend, String>)
    ensures
        match cfg {
            UserDbConfig::Flatfile(f) => r matches Ok(Backend::Flatfile(db)) && db@
                == crate::userdb::flatfile::users_in(f.users@),
            UserDbConfig::Ldap(l) => match r {
                Ok(backend) => l.timeout_secs > 0 && (backend matches Backend::Ldap(db) && db@
                    == crate::userdb::ldap::settings(l)),
                Err(e) => l.timeout_secs == 0 && e@ == crate::userdb::ldap::zero_timeout_message(),
            },
        },
{
    match cfg {
        UserDbConfig::Ldap(l) => match LdapUserDb::new(l) {
            Ok(db) => Ok(Backend::Ldap(db)),
            Err(e) => Err(e),
        },
        _ => match FlatFileUserDb::from_config(&cfg, path) {
            Ok(db) => Ok(Backend::Flatfile(db)),
            Err(e) => Err(e),
        },
    }
}

/// An answer is taken with all its addresses, and an error as it is.
pub proof fn answer_is_taken_as_it_is(list: Vec<String>, e: String)
    ensures
        answer_view(Ok(list)) is Ok,
        answer_view(Ok(list))->Ok_0.len() == list@.len(),
        forall|i: int|
            0 <= i < list@.len() ==> #[trigger] answer_view(Ok(list))->Ok_0[i] == list@[i]@,
        answer_view(Err(e)) == Err::<Seq<Seq<char>>, Seq<char>>(e@),
{
}

} // verus!
