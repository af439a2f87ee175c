//! Content checksums (SHA-256, hex-encoded) and the cache that stores them by key.

use vstd::prelude::*;
use crate::text::{strings_view, str_eq, push_char};
use crate::paths::{path_components, path_components_of};

verus! {

/// Whether two lists of strings are equal.
pub fn strings_eq(a: &Vec<String>, b: &Vec<String>) -> (r: bool)
    ensures
        r == (strings_view(a@) == strings_view(b@)),
{
    if a.len() != b.len() {
        return false;
    }
    let mut i: usize = 0;
    while i < a.len()
        invariant
            a@.len() == b@.len(),
            i <= a@.len(),
            forall|j: int| 0 <= j < i ==> a@[j]@ == b@[j]@,
        decreases a@.len() - i,
    {
        if !str_eq(a[i].as_str(), b[i].as_str()) {
            assert(strings_view(a@)[i as int] != strings_view(b@)[i as int]);
            return false;
        }
        i = i + 1;
    }
    assert(strings_view(a@) =~= strings_view(b@));
    true
}

/// A cache entry: the key as given, its path components, and the checksum.
pub struct CacheEntry {
    pub key: String,
    pub components: Vec<String>,
    pub checksum: String,
}

/// Checksums stored by key. Keys are compared as paths (by their
/// components), as the keys of a map of `PathBuf`s are.
pub struct ChecksumCache {
    entries: Vec<CacheEntry>,
}

/// The checksum stored for a key (given by its path components), searching the entries in order.
pub open spec fn lookup(entries: Seq<CacheEntry>, comps: Seq<Seq<char>>) -> Option<Seq<char>>
    decreases entries.len(),
{
    if entries.len() == 0 {
        None
    } else if strings_view(entries[0].components@) == comps {
        Some(entries[0].checksum@)
    } else {
        lookup(entries.drop_first(), comps)
    }
}

impl ChecksumCache {
    /// Each entry's components are those of its key, and no two entries have the same components.
    pub closed spec fn well_formed(self) -> bool {
        &&& forall|i: int|
            0 <= i < self.entries@.len() ==> strings_view((#[trigger] self.entries@[i]).components@)
                == path_components_of(self.entries@[i].key@)
        &&& forall|i: int, j: int|
            0 <= i < j < self.entries@.len() ==> strings_view((#[trigger] self.entries@[i]).components@)
                != strings_view((#[trigger] self.entries@[j]).components@)
    }

    /// The checksum stored for a key.
    pub closed spec fn get_spec(self, key: Seq<char>) -> Option<Seq<char>> {
        lookup(self.entries@, path_components_of(key))
    }

    /// The keys and checksums, in the order they were first stored.
    pub closed spec fn entries_spec(self) -> Seq<(Seq<char>, Seq<char>)> {
        self.entries@.map_values(|e: CacheEntry| (e.key@, e.checksum@))
    }

    pub fn new() -> (r: Self)
        ensures
            r.well_formed(),
            forall|k: Seq<char>| r.get_spec(k) is None,
            r.entries_spec().len() == 0,
    {
        Self { entries: Vec::new() }
    }

    /// Removes every checksum.
    pub fn clear(&mut self)
        ensures
            final(self).well_formed(),
            forall|k: Seq<char>| final(self).get_spec(k) is None,
            final(self).entries_spec().len() == 0,
    {
        self.entries = Vec::new();
    }

    fn find(&self, comps: &Vec<String>) -> (r: Option<usize>)
        requires
            self.well_formed(),
        ensures
            match r {
                Some(i) => i < self.entries@.len() && strings_view(self.entries@[i as int].components@)
                    == strings_view(comps@) && self.get_spec_comps(strings_view(comps@)) == Some(
                    self.entries@[i as int].checksum@,
                ),
                None => self.get_spec_comps(strings_view(comps@)) is None && forall|j: int|
                    0 <= j < self.entries@.len() ==> strings_view(self.entries@[j].components@)
                        != strings_view(comps@),
            },
    {
        let mut i: usize = 0;
        assert(self.entries@.skip(0) == self.entries@);
        while i < self.entries.len()
            invariant
                i <= self.entries@.len(),
                lookup(self.entries@, strings_view(comps@)) == lookup(self.entries@.skip(i as int), strings_view(comps@)),
                forall|j: int| 0 <= j < i ==> strings_view(self.entries@[j].components@) != strings_view(comps@),
            decreases self.entries@.len() - i,
        {
            proof {
                assert(self.entries@.skip(i as int)[0] == self.entries@[i as int]);
                assert(self.entries@.skip(i as int).drop_first() == self.entries@.skip(i + 1));
            }
            if strings_eq(&self.entries[i].components, comps) {
                return Some(i);
            }
            i = i + 1;
        }
        None
    }

    pub closed spec fn get_spec_comps(self, comps: Seq<Seq<char>>) -> Option<Seq<char>> {
        lookup(self.entries@, comps)
    }

    /// The checksum stored for a key (keys compared as paths).
    pub fn get_by_key(&self, key: &str) -> (r: Option<&String>)
        requires
            self.well_formed(),
        ensures
            match r {
                Some(s) => self.get_spec(key@) == Some(s@),
                None => self.get_spec(key@) is None,
            },
    {
        let comps = path_components(key);
        assert(self.entries@.skip(0) == self.entries@);
        match self.find(&comps) {
            Some(i) => Some(&self.entries[i].checksum),
            None => None,
        }
    }

    /// Stores a checksum for a key, replacing the checksum stored for a key
    /// equal to it as a path.
    pub fn set_by_key(&mut self, key: String, checksum: String)
        requires
            old(self).well_formed(),
        ensures
            final(self).well_formed(),
            forall|k: Seq<char>|
                #[trigger] final(self).get_spec(k) == if path_components_of(k) == path_components_of(key@) {
                    Some(checksum@)
                } else {
                    old(self).get_spec(k)
                },
    {
        let comps = path_components(key.as_str());
        assert(self.entries@.skip(0) == self.entries@);
        let ghost old_entries = self.entries@;
        match self.find(&comps) {
            Some(i) => {
                let mut e = self.entries.remove(i);
                e.checksum = checksum;
                self.entries.insert(i, e);
                assert(forall|j: int| 0 <= j < old_entries.len() && j != i ==> self.entries@[j] == old_entries[j]);
                proof {
                    assert forall|k: Seq<char>|
                        #[trigger] self.get_spec(k) == if path_components_of(k) == path_components_of(key@) {
                            Some(checksum@)
                        } else {
                            old_entries_lookup(old_entries, path_components_of(k))
                        } by {
                        lemma_lookup_update(old_entries, i as int, self.entries@, path_components_of(k));
                    }
                }
            },
            None => {
                let e = CacheEntry { key, components: comps, checksum };
                self.entries.push(e);
                proof {
                    assert forall|k: Seq<char>|
                        #[trigger] self.get_spec(k) == if path_components_of(k) == path_components_of(key@) {
                            Some(checksum@)
                        } else {
                            old_entries_lookup(old_entries, path_components_of(k))
                        } by {
                        lemma_lookup_push(old_entries, self.entries@, path_components_of(k));
                    }
                }
            },
        }
    }

    /// A cache with the checksums of `pairs` (key, checksum), stored in
    /// order: a later pair replaces an earlier one whose key is equal to it
    /// as a path.
    pub fn from_entries(pairs: &[(String, String)]) -> (r: Self)
        ensures
            r.well_formed(),
            forall|k: Seq<char>| #[trigger] r.get_spec(k) == pairs_lookup(pairs_view(pairs@), path_components_of(k)),
    {
        let mut r = Self::new();
        let ghost pv = pairs_view(pairs@);
        let mut i: usize = 0;
        while i < pairs.len()
            invariant
                i <= pairs@.len(),
                pv == pairs_view(pairs@),
                r.well_formed(),
                forall|k: Seq<char>| #[trigger] r.get_spec(k) == pairs_lookup(pv.take(i as int), path_components_of(k)),
            decreases pairs@.len() - i,
        {
            proof {
                assert(pv.take(i + 1).drop_last() == pv.take(i as int));
                assert(pv.take(i + 1).last() == (pairs@[i as int].0@, pairs@[i as int].1@));
            }
            r.set_by_key(pairs[i].0.clone(), pairs[i].1.clone());
            i = i + 1;
        }
        assert(pv.take(pairs@.len() as int) == pv);
        r
    }

    /// The keys and checksums, in the order they were first stored.
    pub fn entries(&self) -> (r: Vec<(String, String)>)
        ensures
            pairs_view(r@) == self.entries_spec(),
    {
        let mut r: Vec<(String, String)> = Vec::new();
        let mut i: usize = 0;
        while i < self.entries.len()
            invariant
                i <= self.entries@.len(),
                pairs_view(r@) == self.entries_spec().take(i as int),
            decreases self.entries@.len() - i,
        {
            let ghost old_r = r@;
            r.push((self.entries[i].key.clone(), self.entries[i].checksum.clone()));
            proof {
                assert(r@ == old_r.push((self.entries@[i as int].key, self.entries@[i as int].checksum)));
                assert(self.entries_spec().take(i + 1) == self.entries_spec().take(i as int).push(
                    self.entries_spec()[i as int],
                ));
                assert(pairs_view(r@) == pairs_view(old_r).push(
                    (self.entries@[i as int].key@, self.entries@[i as int].checksum@),
                ));
            }
            i = i + 1;
        }
        assert(self.entries_spec().take(self.entries@.len() as int) == self.entries_spec());
        r
    }
}

/// Pairs of strings as pairs of texts.
pub open spec fn pairs_view(v: Seq<(String, String)>) -> Seq<(Seq<char>, Seq<char>)> {
    v.map_values(|e: (String, String)| (e.0@, e.1@))
}

/// The checksum that storing `pairs` in order leaves for a key given by its
/// path components: that of the last pair whose key has those components.
pub open spec fn pairs_lookup(pairs: Seq<(Seq<char>, Seq<char>)>, comps: Seq<Seq<char>>) -> Option<Seq<char>>
    decreases pairs.len(),
{
    if pairs.len() == 0 {
        None
    } else if path_components_of(pairs.last().0) == comps {
        Some(pairs.last().1)
    } else {
        pairs_lookup(pairs.drop_last(), comps)
    }
}

proof fn lemma_pairs_lookup_some(pairs: Seq<(Seq<char>, Seq<char>)>, comps: Seq<Seq<char>>, x: Seq<char>)
    requires
        exists|i: int| 0 <= i < pairs.len() && path_components_of(#[trigger] pairs[i].0) == comps,
        forall|i: int| 0 <= i < pairs.len() && path_components_of(#[trigger] pairs[i].0) == comps ==> pairs[i].1 == x,
    ensures
        pairs_lookup(pairs, comps) == Some(x),
    decreases pairs.len(),
{
    let d = pairs.drop_last();
    if path_components_of(pairs.last().0) != comps {
        let i = choose|i: int| 0 <= i < pairs.len() && path_components_of(#[trigger] pairs[i].0) == comps;
        assert(d[i] == pairs[i]);
        assert forall|j: int| 0 <= j < d.len() && path_components_of(#[trigger] d[j].0) == comps implies d[j].1 == x by {
            assert(d[j] == pairs[j]);
        }
        lemma_pairs_lookup_some(d, comps, x);
    } else {
        assert(path_components_of(pairs[pairs.len() - 1].0) == comps);
    }
}

proof fn lemma_pairs_lookup_none(pairs: Seq<(Seq<char>, Seq<char>)>, comps: Seq<Seq<char>>)
    requires
        forall|i: int| 0 <= i < pairs.len() ==> path_components_of(#[trigger] pairs[i].0) != comps,
    ensures
        pairs_lookup(pairs, comps) is None,
    decreases pairs.len(),
{
    if pairs.len() > 0 {
        let d = pairs.drop_last();
        assert(path_components_of(pairs[pairs.len() - 1].0) != comps);
        assert forall|j: int| 0 <= j < d.len() implies path_components_of(#[trigger] d[j].0) != comps by {
            assert(d[j] == pairs[j]);
        }
        lemma_pairs_lookup_none(d, comps);
    }
}

/// A cache saved as its entries and loaded again answers every key as
/// before: whatever order the saved pairs come back in, and with repeats,
/// storing them (`from_entries`) gives each key the checksum the cache
/// held for it, and none where it held none.
pub proof fn lemma_saved_entries_answer_alike(cache: ChecksumCache, saved: Seq<(Seq<char>, Seq<char>)>, k: Seq<char>)
    requires
        cache.well_formed(),
        forall|p: (Seq<char>, Seq<char>)| saved.contains(p) <==> cache.entries_spec().contains(p),
    ensures
        pairs_lookup(saved, path_components_of(k)) == cache.get_spec(k),
{
    let c = path_components_of(k);
    let es = cache.entries@;
    let sp = cache.entries_spec();
    assert forall|m: int| 0 <= m < es.len() implies #[trigger] sp[m] == (es[m].key@, es[m].checksum@) by {}
    if exists|j: int| 0 <= j < es.len() && strings_view(es[j].components@) == c {
        let j = choose|j: int| 0 <= j < es.len() && strings_view(es[j].components@) == c;
        assert forall|a: int| 0 <= a < j implies strings_view(es[a].components@) != c by {
            assert(strings_view(es[a].components@) != strings_view(es[j].components@));
        }
        lemma_lookup_some(es, j, c);
        assert forall|i: int| 0 <= i < saved.len() && path_components_of(#[trigger] saved[i].0) == c implies saved[i].1
            == es[j].checksum@ by {
            assert(saved.contains(saved[i]));
            assert(sp.contains(saved[i]));
            let m = choose|m: int| 0 <= m < sp.len() && sp[m] == saved[i];
            assert(sp[m] == (es[m].key@, es[m].checksum@));
            assert(strings_view(es[m].components@) == path_components_of(es[m].key@));
            if m < j {
                assert(strings_view(es[m].components@) != strings_view(es[j].components@));
            } else if m > j {
                assert(strings_view(es[j].components@) != strings_view(es[m].components@));
            }
        }
        assert(sp[j] == (es[j].key@, es[j].checksum@));
        assert(sp.contains(sp[j]));
        assert(saved.contains(sp[j]));
        let i = choose|i: int| 0 <= i < saved.len() && saved[i] == sp[j];
        assert(strings_view(es[j].components@) == path_components_of(es[j].key@));
        assert(path_components_of(saved[i].0) == c);
        lemma_pairs_lookup_some(saved, c, es[j].checksum@);
    } else {
        lemma_lookup_none(es, c);
        assert forall|i: int| 0 <= i < saved.len() implies path_components_of(#[trigger] saved[i].0) != c by {
            assert(saved.contains(saved[i]));
            assert(sp.contains(saved[i]));
            let m = choose|m: int| 0 <= m < sp.len() && sp[m] == saved[i];
            assert(sp[m] == (es[m].key@, es[m].checksum@));
            assert(strings_view(es[m].components@) == path_components_of(es[m].key@));
        }
        lemma_pairs_lookup_none(saved, c);
    }
}

/// The round trip to disk: a cache loaded by storing the pairs saved from
/// another one (in any order, `from_entries`) answers every key as the
/// saved cache did.
pub proof fn lemma_reloaded_cache_answers_alike(
    cache: ChecksumCache,
    saved: Seq<(Seq<char>, Seq<char>)>,
    loaded: ChecksumCache,
)
    requires
        cache.well_formed(),
        forall|p: (Seq<char>, Seq<char>)| saved.contains(p) <==> cache.entries_spec().contains(p),
        forall|k: Seq<char>| #[trigger] loaded.get_spec(k) == pairs_lookup(saved, path_components_of(k)),
    ensures
        forall|k: Seq<char>| #[trigger] loaded.get_spec(k) == cache.get_spec(k),
{
    assert forall|k: Seq<char>| #[trigger] loaded.get_spec(k) == cache.get_spec(k) by {
        lemma_saved_entries_answer_alike(cache, saved, k);
    }
}

pub open spec fn old_entries_lookup(entries: Seq<CacheEntry>, comps: Seq<Seq<char>>) -> Option<Seq<char>> {
    lookup(entries, comps)
}

proof fn lemma_lookup_some(entries: Seq<CacheEntry>, i: int, comps: Seq<Seq<char>>)
    requires
        0 <= i < entries.len(),
        strings_view(entries[i].components@) == comps,
        forall|j: int| 0 <= j < i ==> strings_view(entries[j].components@) != comps,
    ensures
        lookup(entries, comps) == Some(entries[i].checksum@),
    decreases i,
{
    if i > 0 {
        lemma_lookup_some(entries.drop_first(), i - 1, comps);
    }
}

proof fn lemma_lookup_none(entries: Seq<CacheEntry>, comps: Seq<Seq<char>>)
    requires
        forall|j: int| 0 <= j < entries.len() ==> strings_view(entries[j].components@) != comps,
    ensures
        lookup(entries, comps) is None,
    decreases entries.len(),
{
    if entries.len() > 0 {
        lemma_lookup_none(entries.drop_first(), comps);
    }
}

proof fn lemma_lookup_update(old: Seq<CacheEntry>, i: int, new: Seq<CacheEntry>, comps: Seq<Seq<char>>)
    requires
        0 <= i < old.len(),
        new.len() == old.len(),
        forall|j: int| 0 <= j < old.len() && j != i ==> new[j] == old[j],
        new[i].components == old[i].components,
        forall|a: int, b: int| 0 <= a < b < old.len() ==> strings_view((#[trigger] old[a]).components@)
            != strings_view((#[trigger] old[b]).components@),
    ensures
        lookup(new, comps) == if strings_view(old[i].components@) == comps {
            Some(new[i].checksum@)
        } else {
            lookup(old, comps)
        },
{
    if exists|j: int| 0 <= j < old.len() && strings_view(old[j].components@) == comps {
        let j = choose|j: int| 0 <= j < old.len() && strings_view(old[j].components@) == comps;
        assert forall|a: int| 0 <= a < j implies strings_view(old[a].components@) != comps by {
            assert(strings_view(old[a].components@) != strings_view(old[j].components@));
        }
        lemma_lookup_some(old, j, comps);
        lemma_lookup_some(new, j, comps);
        if j != i {
            assert(strings_view(old[i].components@) != strings_view(old[j].components@)) by {
                if i < j {
                } else {
                }
            }
        }
    } else {
        lemma_lookup_none(old, comps);
        lemma_lookup_none(new, comps);
    }
}

proof fn lemma_lookup_push(old: Seq<CacheEntry>, new: Seq<CacheEntry>, comps: Seq<Seq<char>>)
    requires
        new.len() == old.len() + 1,
        forall|j: int| 0 <= j < old.len() ==> new[j] == old[j],
        forall|j: int| 0 <= j < old.len() ==> strings_view(old[j].components@) != strings_view(new[old.len() as int].components@),
    ensures
        lookup(new, comps) == if strings_view(new[old.len() as int].components@) == comps {
            Some(new[old.len() as int].checksum@)
        } else {
            lookup(old, comps)
        },
{
    if exists|j: int| 0 <= j < old.len() && strings_view(old[j].components@) == comps {
        lemma_lookup_extend(old, new, comps);
    } else {
        lemma_lookup_none(old, comps);
        if strings_view(new[old.len() as int].components@) == comps {
            lemma_lookup_some(new, old.len() as int, comps);
        } else {
            lemma_lookup_none(new, comps);
        }
    }
}


proof fn lemma_lookup_extend(old: Seq<CacheEntry>, new: Seq<CacheEntry>, comps: Seq<Seq<char>>)
    requires
        old.len() <= new.len(),
        forall|j: int| 0 <= j < old.len() ==> new[j] == old[j],
        exists|j: int| 0 <= j < old.len() && strings_view(old[j].components@) == comps,
    ensures
        lookup(new, comps) == lookup(old, comps),
    decreases old.len(),
{
    if strings_view(old[0].components@) != comps {
        let j = choose|j: int| 0 <= j < old.len() && strings_view(old[j].components@) == comps;
        assert(old.drop_first()[j - 1] == old[j]);
        lemma_lookup_extend(old.drop_first(), new.drop_first(), comps);
    }
}


/// The SHA-256 digest of some bytes.
pub uninterp spec fn sha256_of(data: Seq<u8>) -> Seq<u8>;

/// Computes the SHA-256 digest of some bytes.
///
/// Trusted: calls `sha2::Sha256::digest`; claims that the digest is a
/// function of the bytes, named `sha256_of`, and is 32 bytes long (the
/// output size of SHA-256).
#[verifier::external_body]
fn sha256_digest(data: &[u8]) -> (r: Vec<u8>)
    ensures
        r@ == sha256_of(data@),
        r@.len() == 32,
{
    <sha2::Sha256 as sha2::Digest>::digest(data).to_vec()
}

/// The lowercase hexadecimal digit of a value below 16.
pub open spec fn hex_digit(v: nat) -> char {
    if v < 10 {
        ((48 + v) as u8) as char
    } else {
        ((87 + v) as u8) as char
    }
}

/// Lowercase hexadecimal text of some bytes, two digits per byte, high nibble first.
pub open spec fn hex_spec(data: Seq<u8>) -> Seq<char>
    decreases data.len(),
{
    if data.len() == 0 {
        Seq::empty()
    } else {
        hex_spec(data.drop_last()) + seq![
            hex_digit((data.last() / 16) as nat),
            hex_digit((data.last() % 16) as nat),
        ]
    }
}

pub proof fn lemma_hex_len(data: Seq<u8>)
    ensures
        hex_spec(data).len() == 2 * data.len(),
    decreases data.len(),
{
    if data.len() > 0 {
        lemma_hex_len(data.drop_last());
    }
}

/// Encodes bytes as lowercase hexadecimal.
///
/// Trusted: calls `hex::encode`, which writes each byte as two lowercase
/// hexadecimal digits, high nibble first (the crate's `HEX_CHARS_LOWER`).
#[verifier::external_body]
fn hex_encode(data: &[u8]) -> (r: String)
    ensures
        r@ == hex_spec(data@),
{
    hex::encode(data)
}

impl ChecksumCache {
    /// The checksum of a file's contents: the SHA-256 digest, hex-encoded
    /// (64 lowercase hexadecimal digits).
    pub fn checksum_of_contents(contents: &[u8]) -> (r: String)
        ensures
            r@ == hex_spec(sha256_of(contents@)),
            r@.len() == 64,
    {
        let digest = sha256_digest(contents);
        proof {
            lemma_hex_len(digest@);
        }
        hex_encode(digest.as_slice())
    }
}

} // verus!
