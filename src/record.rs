//! The self address record: the key it is stored under, the entries it holds,
//! its value in the DHT, and the reading of a fetched record.

use vstd::prelude::*;
use crate::text::{
    decimal, decimal_text, is_entry, join_entries, join_text, lemma_split_join, no_delimiter,
    split_entries, split_text, texts,
};

verus! {

/// The owner's identifier that the multiaddress written `s` embeds in its
/// first `/p2p/` component, as text; none where `s` is no multiaddress or
/// has no such component.
pub uninterp spec fn multiaddr_owner(s: Seq<char>) -> Option<Seq<char>>;

/// Relies on libp2p's `Multiaddr::from_str`, its protocol iterator and the
/// `Display` of `PeerId`: the identifier in the first `/p2p/` component of
/// the parsed address, printed as text.
#[verifier::external_body]
fn address_owner(entry: &str) -> (r: Option<String>)
    ensures
        r is Some <==> multiaddr_owner(entry@) is Some,
        r is Some ==> multiaddr_owner(entry@) == Some(r->0@),
{
    match entry.parse::<libp2p::Multiaddr>() {
        Ok(addr) => addr.iter().find_map(|p| match p {
            libp2p::multiaddr::Protocol::P2p(id) => Some(id.to_string()),
            _ => None,
        }),
        Err(_) => None,
    }
}

/// The owner embedded in one entry of a fetched record, if it holds one.
pub fn entry_owner(entry: &str) -> (r: Option<String>)
    ensures
        r is Some <==> multiaddr_owner(entry@) is Some,
        r is Some ==> multiaddr_owner(entry@) == Some(r->0@),
{
    address_owner(entry)
}

/// The DHT key of the record of the node `id`.
pub open spec fn record_key(id: Seq<char>) -> Seq<char> {
    "/raggy/peers/"@ + id
}

/// The address `addr` with the owner `id` appended as a `/p2p/` component.
pub open spec fn owned_address(addr: Seq<char>, id: Seq<char>) -> Seq<char> {
    addr + "/p2p/"@ + id
}

/// The entries of the self record of `id` over the addresses `addrs`, in
/// order: each address suffixed with the owner; empty addresses, and those
/// that could not stand as an entry, left out.
pub open spec fn self_entries(addrs: Seq<Seq<char>>, id: Seq<char>) -> Seq<Seq<char>>
    decreases addrs.len(),
{
    if addrs.len() == 0 {
        Seq::empty()
    } else {
        let rest = self_entries(addrs.drop_last(), id);
        let e = owned_address(addrs.last(), id);
        if addrs.last().len() > 0 && is_entry(e) {
            rest.push(e)
        } else {
            rest
        }
    }
}

/// Every entry of a self record can stand as an entry.
pub proof fn lemma_self_entries_are_entries(addrs: Seq<Seq<char>>, id: Seq<char>)
    ensures
        forall|k: int|
            0 <= k < self_entries(addrs, id).len() ==> is_entry(#[trigger] self_entries(addrs, id)[k]),
    decreases addrs.len(),
{
    if addrs.len() > 0 {
        let rest = self_entries(addrs.drop_last(), id);
        lemma_self_entries_are_entries(addrs.drop_last(), id);
        let e = owned_address(addrs.last(), id);
        if addrs.last().len() > 0 && is_entry(e) {
            assert forall|k: int| 0 <= k < rest.push(e).len() implies is_entry(#[trigger] rest.push(e)[k]) by {
                if k < rest.len() {
                    assert(rest.push(e)[k] == rest[k]);
                }
            }
        }
    }
}

/// The key under which the record of `id` is stored.
pub fn record_key_of(id: &str) -> (r: String)
    ensures
        r@ == record_key(id@),
{
    let mut k = String::from_str("/raggy/peers/");
    k.append(id);
    k
}

/// The address `addr` with the owner `id` appended.
pub fn owned_address_of(addr: &str, id: &str) -> (r: String)
    ensures
        r@ == owned_address(addr@, id@),
{
    let mut a = String::from_str(addr);
    a.append("/p2p/");
    a.append(id);
    a
}

fn has_delimiter(s: &str) -> (r: bool)
    ensures
        r == !no_delimiter(s@),
{
    let n = s.unicode_len();
    let mut i: usize = 0;
    while i < n
        invariant
            n == s@.len(),
            i <= n,
            forall|k: int| 0 <= k < i ==> s@[k] != ',',
        decreases n - i,
    {
        if s.get_char(i) == ',' {
            return true;
        }
        i = i + 1;
    }
    false
}

/// Whether `s` can stand as an entry of a record.
pub fn is_entry_text(s: &str) -> (r: bool)
    ensures
        r == is_entry(s@),
{
    let n = s.unicode_len();
    n > 0 && !has_delimiter(s)
}

/// A node's record of its own addresses, as published in the DHT.
pub struct AddressRecord {
    pub owner: String,
    pub entries: Vec<String>,
}

impl AddressRecord {
    /// Every entry can stand between delimiters.
    pub open spec fn wf(&self) -> bool {
        forall|k: int| 0 <= k < self.entries@.len() ==> is_entry(#[trigger] self.entries@[k]@)
    }

    /// Builds the record of `owner` over its known addresses.
    pub fn build(owner: &str, addrs: &Vec<String>) -> (r: AddressRecord)
        ensures
            r.owner@ == owner@,
            texts(r.entries@) == self_entries(texts(addrs@), owner@),
            r.wf(),
    {
        let mut entries: Vec<String> = Vec::new();
        let mut i: usize = 0;
        while i < addrs.len()
            invariant
                i <= addrs.len(),
                texts(entries@) == self_entries(texts(addrs@.subrange(0, i as int)), owner@),
            decreases addrs.len() - i,
        {
            let ghost pre = texts(addrs@.subrange(0, i as int));
            let ghost post = texts(addrs@.subrange(0, i as int + 1));
            assert(post.drop_last() =~= pre);
            assert(post.last() == addrs@[i as int]@);
            let e = owned_address_of(addrs[i].as_str(), owner);
            if addrs[i].as_str().unicode_len() > 0 && is_entry_text(e.as_str()) {
                let ghost before = entries@;
                entries.push(e);
                assert(texts(entries@) =~= texts(before).push(e@));
            }
            i = i + 1;
        }
        assert(addrs@.subrange(0, addrs.len() as int) =~= addrs@);
        proof {
            lemma_self_entries_are_entries(texts(addrs@), owner@);
            assert forall|k: int| 0 <= k < entries@.len() implies is_entry(#[trigger] entries@[k]@) by {
                assert(texts(entries@)[k] == entries@[k]@);
            }
        }
        AddressRecord { owner: String::from_str(owner), entries }
    }

    /// The key the record is stored under.
    pub fn key(&self) -> (r: String)
        ensures
            r@ == record_key(self.owner@),
    {
        record_key_of(self.owner.as_str())
    }

    /// The value stored in the DHT: the entries joined by the delimiter.
    pub fn value(&self) -> (r: String)
        ensures
            r@ == join_entries(texts(self.entries@)),
    {
        join_text(&self.entries)
    }
}

/// The entries of a fetched record value.
pub fn parse_record(value: &str) -> (r: Vec<String>)
    ensures
        texts(r@) == split_entries(value@),
{
    split_text(value)
}

/// The entries of a self record, read back from its value, are the entries
/// it was built with, in order and so also as a set.
pub proof fn lemma_record_round_trip(addrs: Seq<Seq<char>>, id: Seq<char>)
    ensures
        split_entries(join_entries(self_entries(addrs, id))) == self_entries(addrs, id),
        split_entries(join_entries(self_entries(addrs, id))).to_set()
            == self_entries(addrs, id).to_set(),
{
    lemma_self_entries_are_entries(addrs, id);
    lemma_split_join(self_entries(addrs, id));
}

} // verus!
