//! Hooks: programs that are run, best effort, after a key was added or removed.
//! What is run, in which order and with what, is decided here; how it ends never
//! matters to the operation, which is complete by then.

use vstd::prelude::*;
use vstd::seq_lib::*;
use vstd::slice::slice_to_vec;
use vstd::string::*;

use crate::text::{
    byte_lists, bytes_less, bytes_less_irreflexive, bytes_less_total, bytes_less_transitive,
    bytes_lt, first_difference_orders_bytes,
};

verus! {

// ---------------------------------------------------------------------
// Which programs are run
// ---------------------------------------------------------------------

/// An entry of a directory of hooks: its name, whether it is a regular file,
/// and its permission bits.
#[derive(Debug)]
pub struct HookEntry {
    pub name: Vec<u8>,
    pub is_file: bool,
    pub mode: u32,
}

/// A regular file that someone may execute.
pub open spec fn is_executable(entry: HookEntry) -> bool {
    entry.is_file && entry.mode & 0o111 != 0
}

/// Whether an entry is a regular file that someone may execute.
pub fn is_executable_file(entry: &HookEntry) -> (r: bool)
    ensures
        r == is_executable(*entry),
{
    entry.is_file && entry.mode & 0o111 != 0
}

/// The names of the executable entries, in the order of the entries.
pub open spec fn executable_names(entries: Seq<HookEntry>) -> Seq<Seq<u8>>
    decreases entries.len(),
{
    if entries.len() == 0 {
        seq![]
    } else if is_executable(entries.last()) {
        executable_names(entries.drop_last()).push(entries.last().name@)
    } else {
        executable_names(entries.drop_last())
    }
}

/// The names come in dictionary order of their bytes.
pub open spec fn in_name_order(names: Seq<Seq<u8>>) -> bool {
    forall|i: int, j: int|
        0 <= i < j < names.len() ==> !bytes_less(#[trigger] names[j], #[trigger] names[i])
}

proof fn insertion_keeps_name_order(names: Seq<Seq<u8>>, p: int, name: Seq<u8>)
    requires
        0 <= p <= names.len(),
        in_name_order(names),
        forall|i: int| 0 <= i < p ==> !bytes_less(name, #[trigger] names[i]),
        p < names.len() ==> bytes_less(name, names[p]),
    ensures
        in_name_order(names.insert(p, name)),
        names.insert(p, name).to_multiset() == names.to_multiset().insert(name),
{
    let more = names.insert(p, name);
    assert forall|i: int| p <= i < names.len() implies !bytes_less(#[trigger] names[i], name) by {
        if bytes_less(names[i], name) {
            bytes_less_transitive(names[i], name, names[p]);
            if i == p {
                bytes_less_irreflexive(name);
                bytes_less_irreflexive(names[p]);
            } else {
                assert(!bytes_less(names[i], names[p]));
            }
        }
    }
    assert forall|i: int, j: int| 0 <= i < j < more.len() implies !bytes_less(
        #[trigger] more[j],
        #[trigger] more[i],
    ) by {
        if j < p {
            assert(more[i] == names[i] && more[j] == names[j]);
        } else if j == p {
            assert(more[i] == names[i]);
        } else if i == p {
            assert(more[j] == names[j - 1]);
        } else {
            let a = if i < p { i } else { i - 1 };
            assert(more[i] == names[a] && more[j] == names[j - 1]);
        }
    }
    broadcast use group_to_multiset_ensures;

    assert(more.remove(p) =~= names);
    assert(more[p] == name);
    assert(more.contains(name));
    assert(more.to_multiset() =~= names.to_multiset().insert(name));
}

/// Lists the programs of a directory that are run, in the order in which they
/// are run: the executable regular files, by name.
pub fn list_executable_scripts(entries: &Vec<HookEntry>) -> (r: Vec<Vec<u8>>)
    ensures
        in_name_order(byte_lists(r@)),
        byte_lists(r@).to_multiset() == executable_names(entries@).to_multiset(),
{
    let mut out: Vec<Vec<u8>> = Vec::new();
    let mut n: usize = 0;
    assert(byte_lists(out@) =~= executable_names(entries@.take(0)));
    while n < entries.len()
        invariant
            n <= entries@.len(),
            in_name_order(byte_lists(out@)),
            byte_lists(out@).to_multiset() == executable_names(
                entries@.take(n as int),
            ).to_multiset(),
        decreases entries@.len() - n,
    {
        let ghost done = entries@.take(n as int);
        assert(entries@.take(n + 1).drop_last() == done);
        assert(entries@.take(n + 1).last() == entries@[n as int]);
        if is_executable_file(&entries[n]) {
            let name: Vec<u8> = slice_to_vec(entries[n].name.as_slice());
            let ghost names = byte_lists(out@);
            let mut p: usize = 0;
            while p < out.len() && !bytes_lt(name.as_slice(), out[p].as_slice())
                invariant
                    p <= out@.len(),
                    names == byte_lists(out@),
                    forall|i: int| 0 <= i < p ==> !bytes_less(name@, #[trigger] names[i]),
                decreases out@.len() - p,
            {
                p = p + 1;
            }
            proof {
                insertion_keeps_name_order(names, p as int, name@);
                to_multiset_build(executable_names(done), name@);
            }
            out.insert(p, name);
            assert(byte_lists(out@) =~= names.insert(p as int, name@));
        }
        n = n + 1;
    }
    assert(entries@.take(n as int) == entries@);
    out
}

// ---------------------------------------------------------------------
// With what they are run
// ---------------------------------------------------------------------

/// How the programs of one directory are run: each with the address and the
/// domain as its arguments, and with this on its standard input, if anything.
#[derive(Debug)]
pub struct HookPlan {
    pub subdir: &'static str,
    pub address: String,
    pub domain: String,
    pub stdin: Option<Vec<u8>>,
}

/// The hooks to run after a key was added: they read the minimized key.
pub fn on_key_add(address: &str, domain: &str, key_data: &[u8]) -> (r: HookPlan)
    ensures
        r.subdir@ == "on_key_add"@,
        r.address@ == address@,
        r.domain@ == domain@,
        r.stdin is Some && r.stdin->0@ == key_data@,
{
    HookPlan {
        subdir: "on_key_add",
        address: address.to_owned(),
        domain: domain.to_owned(),
        stdin: Some(slice_to_vec(key_data)),
    }
}

/// The hooks to run after a key was removed: there is nothing left to read.
pub fn on_key_remove(address: &str, domain: &str) -> (r: HookPlan)
    ensures
        r.subdir@ == "on_key_remove"@,
        r.address@ == address@,
        r.domain@ == domain@,
        r.stdin is None,
{
    HookPlan {
        subdir: "on_key_remove",
        address: address.to_owned(),
        domain: domain.to_owned(),
        stdin: None,
    }
}

// ---------------------------------------------------------------------
// How they end
// ---------------------------------------------------------------------

/// How a hook ended.
#[derive(Debug)]
pub enum HookEnd {
    /// It could not be started.
    NotStarted,
    /// It ended by itself.
    Exited { success: bool },
    /// It could not be waited for.
    Lost,
    /// It ran longer than it may.
    TimedOut,
}

/// What is done about the end of a hook.
#[derive(Debug)]
pub struct FollowUp {
    /// It is still running and has to be killed.
    pub kill: bool,
    /// It is worth a warning.
    pub warn: bool,
}

/// Decides what is done about the end of a hook: it is killed if it ran too
/// long, and anything but a success is worth a warning. Whatever it is, the next
/// hook is run.
pub fn follow_up(end: &HookEnd) -> (r: FollowUp)
    ensures
        r.kill == (end is TimedOut),
        r.warn == !(*end matches HookEnd::Exited { success } && success),
{
    match end {
        HookEnd::NotStarted => FollowUp { kill: false, warn: true },
        HookEnd::Exited { success } => FollowUp { kill: false, warn: !*success },
        HookEnd::Lost => FollowUp { kill: false, warn: true },
        HookEnd::TimedOut => FollowUp { kill: true, warn: true },
    }
}

// ---------------------------------------------------------------------
// Laws
// ---------------------------------------------------------------------

/// A regular file is executable if its owner, its group or anyone else may execute it;
/// nothing but a regular file is.
pub proof fn any_execute_bit_counts(entry: HookEntry)
    ensures
        is_executable(entry) <==> entry.is_file && (entry.mode & 0o100 != 0 || entry.mode & 0o010
            != 0 || entry.mode & 0o001 != 0),
{
    let mode: u32 = entry.mode;
    assert(mode & 0o111 != 0 <==> (mode & 0o100 != 0 || mode & 0o010 != 0 || mode & 0o001 != 0))
        by (bit_vector);
}

/// Every executable entry counts, wherever it stands, and no other.
pub proof fn every_executable_entry_counts(a: Seq<HookEntry>, b: Seq<HookEntry>, entry: HookEntry)
    ensures
        executable_names(Seq::<HookEntry>::empty()).len() == 0,
        is_executable(entry) ==> executable_names(seq![entry]) == seq![entry.name@],
        !is_executable(entry) ==> executable_names(seq![entry]).len() == 0,
        executable_names(a + b) == executable_names(a) + executable_names(b),
    decreases b.len(),
{
    let one = seq![entry];
    let nothing = Seq::<HookEntry>::empty();
    assert(one.drop_last() == nothing);
    assert(executable_names(nothing) == Seq::<Seq<u8>>::empty());
    assert(one.last() == entry);
    if is_executable(entry) {
        assert(executable_names(one) == seq![entry.name@]);
    }
    if b.len() == 0 {
        assert(a + b == a);
        assert(executable_names(a + b) == executable_names(a) + executable_names(b));
    } else {
        every_executable_entry_counts(a, b.drop_last(), entry);
        assert((a + b).drop_last() == a + b.drop_last());
        assert((a + b).last() == b.last());
        assert(executable_names(a + b) == executable_names(a) + executable_names(b));
    }
}

/// In the order of names, no name stands behind one that is larger: of two names, the
/// first is a prefix of the other, or has the smaller byte where they first differ.
pub proof fn names_come_in_the_order_of_their_bytes(names: Seq<Seq<u8>>, i: int, j: int)
    requires
        in_name_order(names),
        0 <= i < j < names.len(),
    ensures
        names[i] == names[j] || exists|k: int|
            0 <= k <= names[i].len() && k < names[j].len() && #[trigger] names[i].take(k)
                == names[j].take(k) && (k == names[i].len() || names[i][k] < names[j][k]),
{
    assert(!bytes_less(names[j], names[i]));
    bytes_less_total(names[i], names[j]);
    first_difference_orders_bytes(names[i], names[j]);
}

} // verus!
