//! The friends of a profile: a set of identities without order.
//!
//! In memory and in the record the members stand in ascending order, so that
//! one set has one encoding.

use crate::address::{
    lemma_precedes_asymmetric, lemma_precedes_transitive, precedes, Address, Rank,
};
use crate::wire::{
    behind, lemma_take_address, lemma_take_u32, put_address, put_u32, read_address, read_u32,
    take_address, take_u32, u32_bytes,
};
use vstd::prelude::*;

verus! {

/// Every key precedes all keys behind it.
pub open spec fn ascending(keys: Seq<Seq<u8>>) -> bool {
    forall|i: int, j: int|
        0 <= i < j < keys.len() ==> precedes(#[trigger] keys[i], #[trigger] keys[j])
}

/// The identities that the sequence holds, each by its bytes.
pub open spec fn keys_of(items: Seq<Address>) -> Seq<Seq<u8>> {
    items.map_values(|a: Address| a@)
}

/// The members of a set in the order in which a record lists them.
pub open spec fn arrange(members: Set<Seq<u8>>) -> Seq<Seq<u8>> {
    choose|keys: Seq<Seq<u8>>| ascending(keys) && keys.to_set() == members
}

/// A set has an order in which a record can list it.
pub open spec fn arrangeable(members: Set<Seq<u8>>) -> bool {
    exists|keys: Seq<Seq<u8>>| ascending(keys) && keys.to_set() == members
}

/// An ascending sequence holds no key twice.
pub proof fn lemma_ascending_distinct(keys: Seq<Seq<u8>>)
    requires
        ascending(keys),
    ensures
        keys.no_duplicates(),
        keys.to_set().finite(),
        keys.to_set().len() == keys.len(),
{
    assert forall|i: int, j: int|
        0 <= i < keys.len() && 0 <= j < keys.len() && i != j implies keys[i] != keys[j] by {
        if i < j {
            lemma_precedes_asymmetric(keys[i], keys[j]);
        } else {
            lemma_precedes_asymmetric(keys[j], keys[i]);
        }
    }
    keys.unique_seq_to_set();
    vstd::seq_lib::seq_to_set_is_finite(keys);
}

/// Two ascending sequences with the same keys agree on their first `n` places.
proof fn lemma_ascending_agree(a: Seq<Seq<u8>>, b: Seq<Seq<u8>>, n: int)
    requires
        ascending(a),
        ascending(b),
        a.to_set() == b.to_set(),
        a.len() == b.len(),
        0 <= n <= a.len(),
    ensures
        forall|i: int| 0 <= i < n ==> a[i] == b[i],
    decreases n,
{
    if n > 0 {
        lemma_ascending_agree(a, b, n - 1);
        let i = n - 1;
        assert(a.to_set().contains(a[i]));
        assert(b.contains(a[i]));
        let j = choose|j: int| 0 <= j < b.len() && b[j] == a[i];
        assert(b.to_set().contains(b[i]));
        assert(a.contains(b[i]));
        let k = choose|k: int| 0 <= k < a.len() && a[k] == b[i];
        lemma_ascending_distinct(a);
        lemma_ascending_distinct(b);
        if j < i {
            assert(a[j] == b[j]);
            assert(a[j] == a[i]);
        } else if j > i {
            // b[i] precedes b[j], which is a[i]
            assert(precedes(b[i], b[j]));
            if k < i {
                assert(a[k] == b[k]);
                assert(b[k] == b[i]);
            } else if k > i {
                assert(precedes(a[i], a[k]));
                lemma_precedes_asymmetric(a[i], a[k]);
            } else {
                lemma_precedes_asymmetric(b[i], b[j]);
            }
        }
    }
}

/// One set has one ascending order.
pub proof fn lemma_arrange_unique(keys: Seq<Seq<u8>>)
    requires
        ascending(keys),
    ensures
        arrangeable(keys.to_set()),
        arrange(keys.to_set()) == keys,
{
    let other = arrange(keys.to_set());
    assert(ascending(other) && other.to_set() == keys.to_set());
    lemma_ascending_distinct(keys);
    lemma_ascending_distinct(other);
    lemma_ascending_agree(other, keys, keys.len() as int);
    assert(other =~= keys);
}

/// A new key that is put at its place leaves the sequence ascending.
pub proof fn lemma_insert_ascending(keys: Seq<Seq<u8>>, at: int, key: Seq<u8>)
    requires
        ascending(keys),
        0 <= at <= keys.len(),
        forall|i: int| 0 <= i < at ==> precedes(#[trigger] keys[i], key),
        at < keys.len() ==> precedes(key, keys[at]),
    ensures
        ascending(keys.insert(at, key)),
        keys.insert(at, key).to_set() == keys.to_set().insert(key),
        !keys.contains(key),
{
    let after = keys.insert(at, key);
    assert forall|i: int| at <= i < keys.len() implies precedes(key, #[trigger] keys[i]) by {
        if i > at {
            lemma_precedes_transitive(key, keys[at], keys[i]);
        }
    }
    assert forall|i: int, j: int| 0 <= i < j < after.len() implies precedes(
        #[trigger] after[i],
        #[trigger] after[j],
    ) by {
        if i < at {
            assert(after[i] == keys[i]);
        } else if i > at {
            assert(after[i] == keys[i - 1]);
        }
        if j < at {
            assert(after[j] == keys[j]);
        } else if j > at {
            assert(after[j] == keys[j - 1]);
        }
    }
    assert forall|x: Seq<u8>| after.to_set().contains(x) <==> keys.to_set().insert(key).contains(
        x,
    ) by {
        if after.to_set().contains(x) {
            let i = choose|i: int| 0 <= i < after.len() && after[i] == x;
            if i < at {
                assert(keys[i] == x);
            } else if i > at {
                assert(keys[i - 1] == x);
            }
        }
        if keys.to_set().contains(x) {
            let i = choose|i: int| 0 <= i < keys.len() && keys[i] == x;
            if i < at {
                assert(after[i] == x);
            } else {
                assert(after[i + 1] == x);
            }
        }
        if x == key {
            assert(after[at] == x);
        }
    }
    assert(after.to_set() =~= keys.to_set().insert(key));
    if keys.contains(key) {
        let i = choose|i: int| 0 <= i < keys.len() && keys[i] == key;
        if i < at {
            lemma_precedes_asymmetric(keys[i], key);
        } else {
            lemma_precedes_asymmetric(key, keys[i]);
        }
    }
}

/// The set can be written: its members are finitely many, have 32 bytes each
/// and can be put in order.
pub open spec fn friends_fit(members: Set<Seq<u8>>) -> bool {
    &&& members.finite()
    &&& arrangeable(members)
    &&& members.len() <= u32::MAX
    &&& forall|key: Seq<u8>| members.contains(key) ==> key.len() == 32
}

/// The bytes of the identities, one after another.
pub open spec fn address_run_bytes(keys: Seq<Seq<u8>>) -> Seq<u8>
    decreases keys.len(),
{
    if keys.len() == 0 {
        Seq::<u8>::empty()
    } else {
        keys[0] + address_run_bytes(keys.drop_first())
    }
}

/// The bytes of a set of friends: their number, then the members ascending.
pub open spec fn friends_bytes(members: Set<Seq<u8>>) -> Seq<u8> {
    u32_bytes(members.len() as u32) + address_run_bytes(arrange(members))
}

/// Reads `n` identities.
pub open spec fn take_address_run(s: Seq<u8>, n: nat) -> Option<(Seq<Seq<u8>>, Seq<u8>)>
    decreases n,
{
    if n == 0 {
        Some((Seq::<Seq<u8>>::empty(), s))
    } else {
        match take_address(s) {
            Some((key, rest)) => behind(seq![key], take_address_run(rest, (n - 1) as nat)),
            None => None,
        }
    }
}

/// Reads a set of friends: a number and that many identities, in any order;
/// one that comes twice counts once.
pub open spec fn take_friends(s: Seq<u8>) -> Option<(Set<Seq<u8>>, Seq<u8>)> {
    match take_u32(s) {
        Some((n, after_count)) => match take_address_run(after_count, n as nat) {
            Some((keys, rest)) => Some((keys.to_set(), rest)),
            None => None,
        },
        None => None,
    }
}

/// Identities that were written one after another are read back.
pub proof fn lemma_take_address_run(keys: Seq<Seq<u8>>, rest: Seq<u8>)
    requires
        forall|i: int| 0 <= i < keys.len() ==> (#[trigger] keys[i]).len() == 32,
    ensures
        take_address_run(address_run_bytes(keys) + rest, keys.len()) == Some((keys, rest)),
    decreases keys.len(),
{
    if keys.len() == 0 {
        assert(address_run_bytes(keys) + rest =~= rest);
        assert(keys =~= Seq::<Seq<u8>>::empty());
    } else {
        let tail = keys.drop_first();
        assert forall|i: int| 0 <= i < tail.len() implies (#[trigger] tail[i]).len() == 32 by {
            assert(tail[i] == keys[i + 1]);
        }
        lemma_take_address(keys[0], address_run_bytes(tail) + rest);
        lemma_take_address_run(tail, rest);
        assert(address_run_bytes(keys) + rest =~= keys[0] + (address_run_bytes(tail) + rest));
        assert(seq![keys[0]] + tail =~= keys);
    }
}

/// A set of friends that was written is read back, with what follows it.
pub proof fn lemma_take_friends(members: Set<Seq<u8>>, rest: Seq<u8>)
    requires
        friends_fit(members),
    ensures
        take_friends(friends_bytes(members) + rest) == Some((members, rest)),
{
    let keys = arrange(members);
    lemma_ascending_distinct(keys);
    assert forall|i: int| 0 <= i < keys.len() implies (#[trigger] keys[i]).len() == 32 by {
        assert(keys.to_set().contains(keys[i]));
    }
    lemma_take_u32(members.len() as u32, address_run_bytes(keys) + rest);
    lemma_take_address_run(keys, rest);
    assert(friends_bytes(members) + rest =~= u32_bytes(members.len() as u32) + (address_run_bytes(
        keys,
    ) + rest));
}

/// A set of identities.
#[derive(Clone, Debug)]
pub struct FriendSet {
    items: Vec<Address>,
}

impl View for FriendSet {
    type V = Set<Seq<u8>>;

    closed spec fn view(&self) -> Set<Seq<u8>> {
        keys_of(self.items@).to_set()
    }
}

impl FriendSet {
    /// The members stand in ascending order.
    pub closed spec fn wf(&self) -> bool {
        ascending(keys_of(self.items@))
    }

    /// A well-formed set is finite, each member has 32 bytes, and the order in
    /// which a record lists the members is the one in which they are kept.
    pub proof fn lemma_wf(&self)
        requires
            self.wf(),
        ensures
            self@.finite(),
            self@.len() <= usize::MAX,
            arrangeable(self@),
            ascending(arrange(self@)),
            arrange(self@).to_set() == self@,
            arrange(self@).len() == self@.len(),
            forall|key: Seq<u8>| self@.contains(key) ==> key.len() == 32,
    {
        let keys = keys_of(self.items@);
        lemma_ascending_distinct(keys);
        lemma_arrange_unique(keys);
        assert(keys.len() == self.items.len());
        assert forall|key: Seq<u8>| self@.contains(key) implies key.len() == 32 by {
            let i = choose|i: int| 0 <= i < keys.len() && keys[i] == key;
            assert(keys[i] == self.items@[i]@);
        }
    }

    /// The empty set.
    pub fn new() -> (set: FriendSet)
        ensures
            set.wf(),
            set@ == Set::<Seq<u8>>::empty(),
    {
        let set = FriendSet { items: Vec::new() };
        assert(keys_of(set.items@) =~= Seq::<Seq<u8>>::empty());
        assert(set@ =~= Set::<Seq<u8>>::empty());
        set
    }

    /// The number of members.
    pub fn len(&self) -> (count: usize)
        requires
            self.wf(),
        ensures
            count == self@.len(),
    {
        proof {
            lemma_ascending_distinct(keys_of(self.items@));
        }
        self.items.len()
    }

    /// Whether the set has no member.
    pub fn is_empty(&self) -> (empty: bool)
        requires
            self.wf(),
        ensures
            empty == (self@.len() == 0),
    {
        self.len() == 0
    }

    /// The place of `friend` among the members: the number of members that
    /// precede it, and whether it stands there.
    fn locate(&self, friend: &Address) -> (found: (usize, bool))
        requires
            self.wf(),
        ensures
            found.0 <= self.items@.len(),
            forall|i: int| 0 <= i < found.0 ==> precedes(#[trigger] keys_of(self.items@)[i], friend@),
            found.1 ==> found.0 < self.items@.len() && self.items@[found.0 as int]@ == friend@,
            !found.1 && found.0 < self.items@.len() ==> precedes(
                friend@,
                keys_of(self.items@)[found.0 as int],
            ),
    {
        let mut i: usize = 0;
        while i < self.items.len()
            invariant
                0 <= i <= self.items@.len(),
                forall|j: int| 0 <= j < i ==> precedes(#[trigger] keys_of(self.items@)[j], friend@),
            decreases self.items@.len() - i,
        {
            match self.items[i].rank(friend) {
                Rank::Before => {},
                Rank::Same => {
                    return (i, true);
                },
                Rank::After => {
                    return (i, false);
                },
            }
            i += 1;
        }
        (i, false)
    }

    /// Whether `friend` is a member.
    pub fn contains(&self, friend: &Address) -> (member: bool)
        requires
            self.wf(),
        ensures
            member == self@.contains(friend@),
    {
        let (at, found) = self.locate(friend);
        proof {
            let keys = keys_of(self.items@);
            if found {
                assert(keys[at as int] == friend@);
            } else {
                lemma_insert_ascending(keys, at as int, friend@);
            }
        }
        found
    }

    /// Makes `friend` a member. Returns whether it was none before.
    pub fn insert(&mut self, friend: Address) -> (added: bool)
        requires
            old(self).wf(),
        ensures
            final(self).wf(),
            final(self)@ == old(self)@.insert(friend@),
            added == !old(self)@.contains(friend@),
    {
        let (at, found) = self.locate(&friend);
        let ghost keys = keys_of(self.items@);
        if found {
            proof {
                assert(keys[at as int] == friend@);
                assert(self@ =~= self@.insert(friend@));
            }
            false
        } else {
            proof {
                lemma_insert_ascending(keys, at as int, friend@);
            }
            self.items.insert(at, friend);
            proof {
                assert(keys_of(self.items@) =~= keys.insert(at as int, friend@));
            }
            true
        }
    }

    /// The member at place `index` of the ascending order, if the set has
    /// that many members.
    pub fn member(&self, index: usize) -> (friend: Option<Address>)
        requires
            self.wf(),
        ensures
            match friend {
                Some(friend) => index < self@.len() && friend@ == arrange(self@)[index as int],
                None => index >= self@.len(),
            },
    {
        proof {
            lemma_ascending_distinct(keys_of(self.items@));
            lemma_arrange_unique(keys_of(self.items@));
        }
        if index < self.items.len() {
            Some(self.items[index])
        } else {
            None
        }
    }
    /// Appends the set, if it can be written; else `out` stays as it is.
    pub fn put_into(&self, out: &mut Vec<u8>) -> (done: bool)
        requires
            self.wf(),
        ensures
            done == friends_fit(self@),
            done ==> final(out)@ == old(out)@ + friends_bytes(self@),
            !done ==> final(out)@ == old(out)@,
    {
        let ghost keys = keys_of(self.items@);
        proof {
            self.lemma_wf();
            lemma_arrange_unique(keys);
            lemma_ascending_distinct(keys);
        }
        if self.items.len() > u32::MAX as usize {
            return false;
        }
        put_u32(out, self.items.len() as u32);
        let mut i: usize = 0;
        proof {
            assert(keys.skip(0) =~= keys);
            assert(out@ + address_run_bytes(keys) =~= old(out)@ + friends_bytes(self@));
        }
        while i < self.items.len()
            invariant
                0 <= i <= self.items@.len(),
                keys == keys_of(self.items@),
                out@ + address_run_bytes(keys.skip(i as int)) == old(out)@ + friends_bytes(self@),
            decreases self.items@.len() - i,
        {
            let ghost before = out@;
            let ghost left = keys.skip(i as int);
            put_address(out, &self.items[i]);
            proof {
                assert(left[0] == keys[i as int]);
                assert(left.drop_first() =~= keys.skip(i + 1));
                assert(out@ + address_run_bytes(keys.skip(i + 1)) =~= before + address_run_bytes(
                    left,
                ));
            }
            i += 1;
        }
        proof {
            assert(keys.skip(i as int) =~= Seq::<Seq<u8>>::empty());
            assert(out@ =~= out@ + address_run_bytes(keys.skip(i as int)));
        }
        true
    }

    /// Reads a set at `pos`.
    pub fn read(data: &[u8], pos: usize) -> (r: Option<(FriendSet, usize)>)
        ensures
            pos > data@.len() ==> r is None,
            pos <= data@.len() ==> (match r {
                Some((set, next)) => set.wf() && pos <= next <= data@.len() && take_friends(
                    data@.skip(pos as int),
                ) == Some((set@, data@.skip(next as int))),
                None => take_friends(data@.skip(pos as int)) is None,
            }),
    {
        if pos > data.len() {
            return None;
        }
        let (n, start) = match read_u32(data, pos) {
            Some(found) => found,
            None => {
                return None;
            },
        };
        let mut set = FriendSet::new();
        let mut at: usize = start;
        let mut i: u32 = 0;
        let ghost mut seen: Seq<Seq<u8>> = Seq::empty();
        proof {
            let whole = take_address_run(data@.skip(start as int), n as nat);
            assert(behind(seen, whole) == whole) by {
                if whole is Some {
                    assert(seen + whole.unwrap().0 =~= whole.unwrap().0);
                }
            }
            assert(seen.to_set() =~= Set::<Seq<u8>>::empty());
        }
        while i < n
            invariant
                0 <= i <= n,
                pos <= start <= at <= data@.len(),
                take_u32(data@.skip(pos as int)) == Some((n, data@.skip(start as int))),
                set.wf(),
                set@ == seen.to_set(),
                take_address_run(data@.skip(start as int), n as nat) == behind(
                    seen,
                    take_address_run(data@.skip(at as int), (n - i) as nat),
                ),
            decreases n - i,
        {
            let (friend, next) = match read_address(data, at) {
                Some(found) => found,
                None => {
                    assert(take_address_run(data@.skip(at as int), (n - i) as nat) is None);
                    return None;
                },
            };
            proof {
                let later = take_address_run(data@.skip(next as int), (n - i - 1) as nat);
                if later is Some {
                    assert(seen + (seq![friend@] + later.unwrap().0) =~= seen.push(friend@)
                        + later.unwrap().0);
                }
                assert(seen.push(friend@).to_set() =~= seen.to_set().insert(friend@)) by {
                    assert forall|x: Seq<u8>| seen.push(friend@).to_set().contains(x)
                        <==> seen.to_set().insert(friend@).contains(x) by {
                        if seen.to_set().contains(x) {
                            let j = choose|j: int| 0 <= j < seen.len() && seen[j] == x;
                            assert(seen.push(friend@)[j] == x);
                        }
                        if x == friend@ {
                            assert(seen.push(friend@)[seen.len() as int] == x);
                        }
                    }
                }
                seen = seen.push(friend@);
            }
            set.insert(friend);
            at = next;
            i += 1;
        }
        proof {
            assert(seen + Seq::<Seq<u8>>::empty() =~= seen);
        }
        Some((set, at))
    }
}

} // verus!
